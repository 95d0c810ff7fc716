//! Small reusable utilities: defaulting access to optional values, and
//! substring filtering.

use vstd::prelude::*;

verus! {

/// Relies on `str::chars` (via `collect`): it yields the characters of
/// the string in order.
#[verifier::external_body]
pub(crate) fn str_to_chars(s: &str) -> (r: Vec<char>)
    ensures
        r@ == s@,
{
    s.chars().collect()
}

/// Relies on `FromIterator for String` (via `collect`): it builds the
/// string holding the given characters in order.
#[verifier::external_body]
pub(crate) fn chars_to_string(v: &Vec<char>) -> (r: String)
    ensures
        r@ == v@,
{
    v.iter().collect()
}

/// Defaulting access to a possibly absent value.
///
/// `safe_value` never fails: an absent value resolves to the documented
/// type default (empty string, `false`, `0`).
pub trait SafeValue<T: DeepView> {
    spec fn spec_safe_value(&self) -> T::V;

    fn safe_value(&self) -> (r: T)
        ensures
            r.deep_view() == self.spec_safe_value(),
    ;
}

impl SafeValue<String> for String {
    open spec fn spec_safe_value(&self) -> Seq<char> {
        self@
    }

    fn safe_value(&self) -> (r: String) {
        self.clone()
    }
}

impl SafeValue<String> for Option<String> {
    open spec fn spec_safe_value(&self) -> Seq<char> {
        match self {
            Some(s) => s@,
            None => Seq::empty(),
        }
    }

    fn safe_value(&self) -> (r: String) {
        match self {
            Some(s) => s.clone(),
            None => String::new(),
        }
    }
}

impl SafeValue<i32> for Option<i32> {
    open spec fn spec_safe_value(&self) -> i32 {
        match self {
            Some(n) => *n,
            None => 0,
        }
    }

    fn safe_value(&self) -> (r: i32) {
        match self {
            Some(n) => *n,
            None => 0,
        }
    }
}

impl SafeValue<bool> for Option<bool> {
    open spec fn spec_safe_value(&self) -> bool {
        match self {
            Some(b) => *b,
            None => false,
        }
    }

    fn safe_value(&self) -> (r: bool) {
        match self {
            Some(b) => *b,
            None => false,
        }
    }
}

/// `needle` occurs contiguously somewhere in `hay`.
pub open spec fn is_substring_of(needle: Seq<char>, hay: Seq<char>) -> bool {
    exists|k: int|
        0 <= k <= hay.len() - needle.len() && #[trigger] hay.subrange(k, k + needle.len() as int)
            == needle
}

/// `s` contains at least one of the given filter strings (case-sensitive
/// substring containment). An empty filter list matches nothing.
pub open spec fn spec_matches_filter(s: Seq<char>, filter: Seq<Seq<char>>) -> bool {
    exists|i: int| 0 <= i < filter.len() && is_substring_of(filter[i], s)
}

fn match_at(hay: &Vec<char>, needle: &Vec<char>, k: usize) -> (r: bool)
    requires
        k + needle@.len() <= hay@.len(),
    ensures
        r == (hay@.subrange(k as int, k as int + needle@.len() as int) == needle@),
{
    proof {
        vstd::std_specs::vec::axiom_spec_len(hay);
    }
    let mut t: usize = 0;
    while t < needle.len()
        invariant
            t <= needle@.len(),
            k + needle@.len() <= hay@.len(),
            hay@.len() <= usize::MAX,
            forall|u: int| 0 <= u < t ==> hay@[k + u] == needle@[u],
        decreases needle@.len() - t,
    {
        if hay[k + t] != needle[t] {
            proof {
                let sub = hay@.subrange(k as int, k as int + needle@.len() as int);
                assert(sub[t as int] != needle@[t as int]);
            }
            return false;
        }
        t = t + 1;
    }
    proof {
        assert(hay@.subrange(k as int, k as int + needle@.len() as int) =~= needle@);
    }
    true
}

/// Whether `needle` occurs contiguously in `hay`.
pub(crate) fn contains_substring(hay: &Vec<char>, needle: &Vec<char>) -> (r: bool)
    ensures
        r == is_substring_of(needle@, hay@),
{
    if needle.len() > hay.len() {
        return false;
    }
    if needle.len() == 0 {
        proof {
            assert(hay@.subrange(0, 0 + needle@.len() as int) =~= needle@);
        }
        return true;
    }
    let last = hay.len() - needle.len();
    let mut k: usize = 0;
    loop
        invariant
            k <= last + 1,
            last == hay@.len() - needle@.len(),
            1 <= needle@.len(),
            hay@.len() <= usize::MAX,
            forall|u: int|
                0 <= u < k ==> #[trigger] hay@.subrange(u, u + needle@.len() as int) != needle@,
        decreases last + 1 - k,
    {
        if k > last {
            return false;
        }
        if match_at(hay, needle, k) {
            return true;
        }
        k = k + 1;
    }
}

/// Substring filtering against a list of filter strings.
pub trait MatchesFilter {
    spec fn spec_matches_one_of(&self, filter: Seq<Seq<char>>) -> bool;

    fn matches_one_of(&self, right: &Vec<String>) -> (r: bool)
        ensures
            r == self.spec_matches_one_of(right.deep_view()),
    ;
}

impl MatchesFilter for String {
    open spec fn spec_matches_one_of(&self, filter: Seq<Seq<char>>) -> bool {
        spec_matches_filter(self@, filter)
    }

    fn matches_one_of(&self, right: &Vec<String>) -> (r: bool) {
        let hay = str_to_chars(self.as_str());
        let mut i: usize = 0;
        while i < right.len()
            invariant
                i <= right@.len(),
                hay@ == self@,
                forall|t: int|
                    0 <= t < i ==> !is_substring_of(#[trigger] right.deep_view()[t], self@),
            decreases right@.len() - i,
        {
            let needle = str_to_chars(right[i].as_str());
            if contains_substring(&hay, &needle) {
                proof {
                    assert(right.deep_view()[i as int] == right@[i as int]@);
                }
                return true;
            }
            proof {
                assert(right.deep_view()[i as int] == right@[i as int]@);
            }
            i = i + 1;
        }
        false
    }
}

} // verus!
