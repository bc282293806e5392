//! The configuration surface of the pipeline.

use vstd::prelude::*;
use crate::patterns::spec_all_valid;
use crate::patterns::all_valid;

verus! {

/// Configuration consumed by the transformer (and, for `reverse`, by the
/// renderer).  The pattern sets hold regular expressions in the `regex`
/// crate's syntax; they are matched unanchored against type names.
#[derive(Debug, Clone)]
pub struct Options {
    /// Keep only this number of leading types, after all other stages.
    pub limit: Option<usize>,
    /// Display-only: render the final sequence in reverse order.
    pub reverse: bool,
    /// Drop types whose layout is indistinguishable from a single member.
    pub remove_wrappers: bool,
    /// Drop types, items, discriminants and end paddings below this size.
    pub hide_less: Option<usize>,
    /// Sort each item list by size and drop paddings.
    pub sort_fields: bool,
    /// Keep only types matching one of these patterns (when non-empty).
    pub filter: Vec<String>,
    /// Drop types matching one of these patterns.
    pub exclude: Vec<String>,
    /// Seed patterns of the expansion stage.
    pub expand: Vec<String>,
    /// Let the expansion stage also follow field sizes.
    pub expand_by_size: bool,
}

/// View of [`Options`]: patterns as character sequences.
#[verifier::ext_equal]
pub struct OptionsV {
    pub limit: Option<usize>,
    pub reverse: bool,
    pub remove_wrappers: bool,
    pub hide_less: Option<usize>,
    pub sort_fields: bool,
    pub filter: Seq<Seq<char>>,
    pub exclude: Seq<Seq<char>>,
    pub expand: Seq<Seq<char>>,
    pub expand_by_size: bool,
}

impl DeepView for Options {
    type V = OptionsV;

    open spec fn deep_view(&self) -> OptionsV {
        OptionsV {
            limit: self.limit,
            reverse: self.reverse,
            remove_wrappers: self.remove_wrappers,
            hide_less: self.hide_less,
            sort_fields: self.sort_fields,
            filter: self.filter.deep_view(),
            exclude: self.exclude.deep_view(),
            expand: self.expand.deep_view(),
            expand_by_size: self.expand_by_size,
        }
    }
}

impl Default for Options {
    /// The neutral configuration: no limit, no reordering, no filtering.
    fn default() -> (r: Self)
        ensures
            r.limit is None,
            !r.reverse,
            !r.remove_wrappers,
            r.hide_less is None,
            !r.sort_fields,
            r.filter@.len() == 0,
            r.exclude@.len() == 0,
            r.expand@.len() == 0,
            !r.expand_by_size,
    {
        Options {
            limit: None,
            reverse: false,
            remove_wrappers: false,
            hide_less: None,
            sort_fields: false,
            filter: Vec::new(),
            exclude: Vec::new(),
            expand: Vec::new(),
            expand_by_size: false,
        }
    }
}

impl Options {
    /// Whether every configured pattern is a valid regular expression.
    /// Invalid patterns are a construction-time error: callers reject the
    /// configuration before running the pipeline.
    pub open spec fn spec_patterns_valid(self) -> bool {
        let v = self.deep_view();
        spec_all_valid(v.filter) && spec_all_valid(v.exclude) && spec_all_valid(v.expand)
    }

    /// Reports whether every configured pattern is a valid regular
    /// expression.
    pub fn patterns_valid(&self) -> (r: bool)
        ensures
            r == self.spec_patterns_valid(),
    {
        let a = all_valid(&self.filter);
        let b = all_valid(&self.exclude);
        let c = all_valid(&self.expand);
        a && b && c
    }
}

} // verus!
