//! The first entry of a sequence that holds a value.

use vstd::prelude::*;

verus! {

/// The first entry of `s` that is `Some`, if there is one.
pub open spec fn first_some<T>(s: Seq<Option<T>>) -> Option<T>
    decreases s.len(),
{
    if s.len() == 0 {
        None
    } else if first_some(s.drop_last()) is Some {
        first_some(s.drop_last())
    } else {
        s.last()
    }
}

/// `first_some` is the entry at the least index that holds one: all entries
/// before it are `None`, and where it is `None` all entries are.
pub proof fn lemma_first_some_is_first<T>(s: Seq<Option<T>>)
    ensures
        first_some(s) is None <==> forall|i: int| 0 <= i < s.len() ==> (#[trigger] s[i]) is None,
        first_some(s) is Some ==> exists|i: int|
            0 <= i < s.len() && #[trigger] s[i] == first_some(s) && forall|j: int|
                0 <= j < i ==> (#[trigger] s[j]) is None,
    decreases s.len(),
{
    if s.len() > 0 {
        let rest = s.drop_last();
        lemma_first_some_is_first(rest);
        assert forall|i: int| 0 <= i < rest.len() implies rest[i] == s[i] by {}
        if first_some(rest) is Some {
            let i = choose|i: int|
                0 <= i < rest.len() && #[trigger] rest[i] == first_some(rest) && forall|j: int|
                    0 <= j < i ==> (#[trigger] rest[j]) is None;
            assert(s[i] == first_some(s));
            assert forall|j: int| 0 <= j < i implies (#[trigger] s[j]) is None by {
                assert(rest[j] is None);
            }
        } else {
            assert forall|j: int| 0 <= j < s.len() - 1 implies (#[trigger] s[j]) is None by {
                assert(rest[j] is None);
            }
            if s.last() is Some {
                assert(s[s.len() - 1] == first_some(s));
            }
        }
    }
}

/// Appending an entry changes the first `Some` only where there was none.
pub proof fn lemma_first_some_push<T>(s: Seq<Option<T>>, x: Option<T>)
    ensures
        first_some(s.push(x)) == if first_some(s) is Some {
            first_some(s)
        } else {
            x
        },
{
    assert(s.push(x).drop_last() =~= s);
}

/// Once a prefix of a sequence has a first `Some`, the whole sequence has the
/// same one.
pub proof fn lemma_first_some_extends<T>(s: Seq<Option<T>>, n: int)
    requires
        0 <= n <= s.len(),
        first_some(s.take(n)) is Some,
    ensures
        first_some(s) == first_some(s.take(n)),
    decreases s.len() - n,
{
    if n < s.len() {
        assert(s.take(n + 1).drop_last() =~= s.take(n));
        lemma_first_some_extends(s, n + 1);
    } else {
        assert(s.take(n) =~= s);
    }
}

} // verus!
