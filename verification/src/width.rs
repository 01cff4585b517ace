use vstd::prelude::*;
use vstd::string::StrSliceExecFns;

verus! {

/// A pluggable measure of a string's rendered display width.
///
/// `spec_width` is the mathematical measure of a sequence of characters;
/// the executable `width` must return exactly that value. Implementations
/// choose the policy — count every character as one column, give wide
/// East-Asian characters two columns, and so on. The measure must be
/// deterministic: the layout code caches its results and never re-asks.
pub trait WidthFunc: Sized {
    /// The mathematical width of `s` under this policy.
    spec fn spec_width(&self, s: Seq<char>) -> nat;

    /// Measure one line of text.
    fn width(&self, text: &str) -> (r: usize)
        ensures
            r == self.spec_width(text@),
    ;
}

/// The simplest width policy: every character occupies one column.
pub struct CharCountWidth;

impl WidthFunc for CharCountWidth {
    open spec fn spec_width(&self, s: Seq<char>) -> nat {
        s.len()
    }

    fn width(&self, text: &str) -> (r: usize) {
        text.unicode_len()
    }
}

/// The largest value in `s`, or zero when `s` is empty.
pub open spec fn max_of(s: Seq<nat>) -> nat
    decreases s.len(),
{
    if s.len() == 0 {
        0
    } else {
        let rest = max_of(s.drop_last());
        if s.last() > rest {
            s.last()
        } else {
            rest
        }
    }
}

/// Every element of `s` is bounded by `max_of(s)`.
pub proof fn lemma_max_of_bound(s: Seq<nat>)
    ensures
        forall|i: int| 0 <= i < s.len() ==> s[i] <= max_of(s),
    decreases s.len(),
{
    if s.len() > 0 {
        lemma_max_of_bound(s.drop_last());
        assert forall|i: int| 0 <= i < s.len() implies s[i] <= max_of(s) by {
            if i < s.len() - 1 {
                assert(s.drop_last()[i] == s[i]);
            }
        }
    }
}

} // verus!
