//! Metadata filters as values: what a filter says, copies of filters, and
//! filters made of others.

use vstd::prelude::*;
use crate::json;
use crate::json::{Json, JsonValue};
use crate::models::MetadataFilter;
use crate::text;
use crate::text::{opt_text, same_opt_text};

verus! {

/// What a `MetadataFilter` says, as mathematical values.
#[verifier::ext_equal]
pub ghost struct FilterView {
    pub and_: Option<Seq<FilterView>>,
    pub or_: Option<Seq<FilterView>>,
    pub not_: Option<Box<FilterView>>,
    pub key: Option<Seq<char>>,
    pub op: Option<Seq<char>>,
    pub value: Option<Json>,
}

impl FilterView {
    /// The filter that says nothing.
    pub open spec fn empty() -> FilterView {
        FilterView { and_: None, or_: None, not_: None, key: None, op: None, value: None }
    }

    /// A comparison of a key with a value.
    pub open spec fn comparison(key: Seq<char>, op: Seq<char>, value: Json) -> FilterView {
        FilterView { key: Some(key), op: Some(op), value: Some(value), ..FilterView::empty() }
    }

    /// A test for the absence of a value.
    pub open spec fn is_null(key: Seq<char>) -> FilterView {
        FilterView { key: Some(key), op: Some("is_null"@), ..FilterView::empty() }
    }

    pub open spec fn negation(f: FilterView) -> FilterView {
        FilterView { not_: Some(Box::new(f)), ..FilterView::empty() }
    }

    pub open spec fn all_of(fs: Seq<FilterView>) -> FilterView {
        FilterView { and_: Some(fs), ..FilterView::empty() }
    }

    pub open spec fn any_of(fs: Seq<FilterView>) -> FilterView {
        FilterView { or_: Some(fs), ..FilterView::empty() }
    }

    /// Whether two filters are the same, with values compared as JSON.
    pub open spec fn equals(self, other: FilterView) -> bool
        decreases self,
    {
        &&& match (self.and_, other.and_) {
            (None, None) => true,
            (Some(a), Some(b)) => a.len() == b.len() && forall|i: int|
                0 <= i < a.len() ==> (#[trigger] a[i]).equals(b[i]),
            _ => false,
        }
        &&& match (self.or_, other.or_) {
            (None, None) => true,
            (Some(a), Some(b)) => a.len() == b.len() && forall|i: int|
                0 <= i < a.len() ==> (#[trigger] a[i]).equals(b[i]),
            _ => false,
        }
        &&& match (self.not_, other.not_) {
            (None, None) => true,
            (Some(a), Some(b)) => (*a).equals(*b),
            _ => false,
        }
        &&& self.key == other.key
        &&& self.op == other.op
        &&& json::opt_equals(self.value, other.value)
    }
}

/// What a list of filters says.
pub open spec fn filter_views(v: Seq<MetadataFilter>) -> Seq<FilterView> {
    Seq::new(v.len(), |i: int| v[i]@)
}

/// What an optional filter says.
pub open spec fn opt_filter(f: Option<MetadataFilter>) -> Option<FilterView> {
    match f {
        Some(x) => Some(x@),
        None => None,
    }
}

impl MetadataFilter {
    pub open spec fn view(&self) -> FilterView
        decreases self,
    {
        FilterView {
            and_: match self.and_ {
                Some(v) => Some(
                    Seq::new(
                        v@.len(),
                        |i: int|
                            if 0 <= i < v@.len() {
                                v@[i].view()
                            } else {
                                FilterView::empty()
                            },
                    ),
                ),
                None => None,
            },
            or_: match self.or_ {
                Some(v) => Some(
                    Seq::new(
                        v@.len(),
                        |i: int|
                            if 0 <= i < v@.len() {
                                v@[i].view()
                            } else {
                                FilterView::empty()
                            },
                    ),
                ),
                None => None,
            },
            not_: match self.not_ {
                Some(f) => Some(Box::new(f.view())),
                None => None,
            },
            key: text::opt_view(self.key),
            op: text::opt_view(self.op),
            value: json::opt_json(self.value),
        }
    }

    /// What a filter says, in terms of its parts.
    pub proof fn view_parts(self)
        ensures
            self@.and_ == (match self.and_ {
                Some(v) => Some(filter_views(v@)),
                None => None,
            }),
            self@.or_ == (match self.or_ {
                Some(v) => Some(filter_views(v@)),
                None => None,
            }),
            self@.not_ == (match self.not_ {
                Some(f) => Some(Box::new(f@)),
                None => None,
            }),
            self@.key == text::opt_view(self.key),
            self@.op == text::opt_view(self.op),
            self@.value == json::opt_json(self.value),
    {
        if self.and_ is Some {
            assert(self@.and_->0 =~= filter_views(self.and_->0@));
        }
        if self.or_ is Some {
            assert(self@.or_->0 =~= filter_views(self.or_->0@));
        }
    }

    /// The filter that says nothing.
    pub fn empty() -> (r: MetadataFilter)
        ensures
            r@ == FilterView::empty(),
    {
        MetadataFilter { and_: None, or_: None, not_: None, key: None, op: None, value: None }
    }

    /// A comparison of a key with a value.
    pub fn comparison(key: &str, op: &str, value: JsonValue) -> (r: MetadataFilter)
        ensures
            r@ == FilterView::comparison(key@, op@, value@),
    {
        MetadataFilter {
            and_: None,
            or_: None,
            not_: None,
            key: Some(key.to_owned()),
            op: Some(op.to_owned()),
            value: Some(value),
        }
    }

    /// A test for the absence of a value.
    pub fn is_null(key: &str) -> (r: MetadataFilter)
        ensures
            r@ == FilterView::is_null(key@),
    {
        MetadataFilter {
            and_: None,
            or_: None,
            not_: None,
            key: Some(key.to_owned()),
            op: Some("is_null".to_owned()),
            value: None,
        }
    }

    /// The opposite of a filter.
    pub fn negation(f: MetadataFilter) -> (r: MetadataFilter)
        ensures
            r@ == FilterView::negation(f@),
    {
        MetadataFilter {
            and_: None,
            or_: None,
            not_: Some(Box::new(f)),
            key: None,
            op: None,
            value: None,
        }
    }

    /// The conjunction of filters.
    pub fn all_of(fs: Vec<MetadataFilter>) -> (r: MetadataFilter)
        ensures
            r@ == FilterView::all_of(filter_views(fs@)),
    {
        let r = MetadataFilter {
            and_: Some(fs),
            or_: None,
            not_: None,
            key: None,
            op: None,
            value: None,
        };
        proof {
            r.view_parts();
        }
        r
    }

    /// The disjunction of filters.
    pub fn any_of(fs: Vec<MetadataFilter>) -> (r: MetadataFilter)
        ensures
            r@ == FilterView::any_of(filter_views(fs@)),
    {
        let r = MetadataFilter {
            and_: None,
            or_: Some(fs),
            not_: None,
            key: None,
            op: None,
            value: None,
        };
        proof {
            r.view_parts();
        }
        r
    }

    /// A copy of the filter.
    pub fn duplicate(&self) -> (r: MetadataFilter)
        ensures
            r@ == self@,
        decreases self,
    {
        let and_ = match &self.and_ {
            Some(v) => Some(duplicate_all(v)),
            None => None,
        };
        let or_ = match &self.or_ {
            Some(v) => Some(duplicate_all(v)),
            None => None,
        };
        let not_ = match &self.not_ {
            Some(f) => Some(Box::new(f.duplicate())),
            None => None,
        };
        let value = match &self.value {
            Some(v) => Some(v.duplicate()),
            None => None,
        };
        let r = MetadataFilter {
            and_,
            or_,
            not_,
            key: opt_text(&self.key),
            op: opt_text(&self.op),
            value,
        };
        proof {
            r.view_parts();
            self.view_parts();
        }
        r
    }
}

impl Clone for MetadataFilter {
    fn clone(&self) -> (r: Self)
        ensures
            r@ == self@,
    {
        self.duplicate()
    }
}

fn duplicate_all(v: &Vec<MetadataFilter>) -> (r: Vec<MetadataFilter>)
    ensures
        filter_views(r@) == filter_views(v@),
    decreases v,
{
    let mut out: Vec<MetadataFilter> = Vec::new();
    let mut i: usize = 0;
    while i < v.len()
        invariant
            i <= v@.len(),
            out@.len() == i,
            forall|k: int| 0 <= k < i ==> (#[trigger] out@[k])@ == v@[k]@,
        decreases v.len() - i,
    {
        assert(decreases_to!(v => v@[i as int]));
        out.push(v[i].duplicate());
        i += 1;
    }
    assert(filter_views(out@) =~= filter_views(v@));
    out
}

fn same_all(a: &Vec<MetadataFilter>, b: &Vec<MetadataFilter>) -> (r: bool)
    ensures
        r == (a@.len() == b@.len() && forall|i: int|
            0 <= i < a@.len() ==> (#[trigger] filter_views(a@)[i]).equals(filter_views(b@)[i])),
    decreases a,
{
    if a.len() != b.len() {
        return false;
    }
    let mut i: usize = 0;
    while i < a.len()
        invariant
            i <= a@.len(),
            a@.len() == b@.len(),
            forall|k: int|
                0 <= k < i ==> (#[trigger] filter_views(a@)[k]).equals(filter_views(b@)[k]),
        decreases a.len() - i,
    {
        assert(decreases_to!(a => a@[i as int]));
        if !same_filter(&a[i], &b[i]) {
            assert(!filter_views(a@)[i as int].equals(filter_views(b@)[i as int]));
            return false;
        }
        i += 1;
    }
    true
}

/// Whether two filters are the same, with values compared as JSON.
pub fn same_filter(a: &MetadataFilter, b: &MetadataFilter) -> (r: bool)
    ensures
        r == a@.equals(b@),
    decreases a,
{
    proof {
        a.view_parts();
        b.view_parts();
    }
    let same_and = match (&a.and_, &b.and_) {
        (None, None) => true,
        (Some(x), Some(y)) => same_all(x, y),
        _ => false,
    };
    let same_or = match (&a.or_, &b.or_) {
        (None, None) => true,
        (Some(x), Some(y)) => same_all(x, y),
        _ => false,
    };
    let same_not = match (&a.not_, &b.not_) {
        (None, None) => true,
        (Some(x), Some(y)) => same_filter(x, y),
        _ => false,
    };
    let same_value = match (&a.value, &b.value) {
        (None, None) => true,
        (Some(x), Some(y)) => x.same(y),
        _ => false,
    };
    same_and && same_or && same_not && same_value && same_opt_text(&a.key, &b.key)
        && same_opt_text(&a.op, &b.op)
}

/// A filter of each form says its own parts and none of the others.
pub proof fn filters_say_their_parts(
    key: Seq<char>,
    op: Seq<char>,
    value: Json,
    f: FilterView,
    fs: Seq<FilterView>,
)
    ensures
        ({
            let c = FilterView::comparison(key, op, value);
            c.key == Some(key) && c.op == Some(op) && c.value == Some(value) && c.and_ is None
                && c.or_ is None && c.not_ is None
        }),
        ({
            let n = FilterView::is_null(key);
            n.key == Some(key) && n.op == Some("is_null"@) && n.value is None && n.and_ is None
                && n.or_ is None && n.not_ is None
        }),
        ({
            let n = FilterView::negation(f);
            n.not_ == Some(Box::new(f)) && n.and_ is None && n.or_ is None && n.key is None
                && n.op is None && n.value is None
        }),
        ({
            let a = FilterView::all_of(fs);
            a.and_ == Some(fs) && a.or_ is None && a.not_ is None && a.key is None && a.op is None
                && a.value is None
        }),
        ({
            let a = FilterView::any_of(fs);
            a.or_ == Some(fs) && a.and_ is None && a.not_ is None && a.key is None && a.op is None
                && a.value is None
        }),
{
}

} // verus!
