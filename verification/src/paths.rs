//! Folder paths.
//!
//! A path is a `/`-delimited chain of folder names with no leading or
//! trailing separator; the empty path addresses the root and has no
//! segments.

use vstd::prelude::*;
use vstd::string::StrSliceExecFns;

verus! {

/// The `/`-separated segments of a non-empty character sequence.
/// Splitting never yields fewer than one segment; separators at the
/// ends or next to each other yield empty segments, as the store's
/// lookup rules expect.
pub open spec fn split_chars(s: Seq<char>) -> Seq<Seq<char>>
    decreases s.len(),
{
    if s.len() == 0 {
        seq![Seq::<char>::empty()]
    } else if s[0] == '/' {
        seq![Seq::<char>::empty()] + split_chars(s.skip(1))
    } else {
        let rest = split_chars(s.skip(1));
        seq![seq![s[0]] + rest[0]] + rest.skip(1)
    }
}

/// The segments a path denotes: none for the empty path, its
/// `/`-separated pieces otherwise.
pub open spec fn path_segs(s: Seq<char>) -> Seq<Seq<char>> {
    if s.len() == 0 {
        Seq::empty()
    } else {
        split_chars(s)
    }
}

pub proof fn lemma_split_chars_len(s: Seq<char>)
    ensures
        split_chars(s).len() >= 1,
    decreases s.len(),
{
    if s.len() > 0 {
        lemma_split_chars_len(s.skip(1));
    }
}

/// Splitting a sequence whose first separator is at `k` (or that has
/// none, when `k` is the length) takes the first `k` characters as one
/// segment and splits the rest.
proof fn lemma_split_chars_first(s: Seq<char>, k: int)
    requires
        0 <= k <= s.len(),
        forall|m: int| 0 <= m < k ==> s[m] != '/',
    ensures
        k == s.len() ==> split_chars(s) == seq![s],
        k < s.len() && s[k] == '/' ==> split_chars(s) == seq![s.take(k)] + split_chars(
            s.skip(k + 1),
        ),
    decreases s.len(),
{
    lemma_split_chars_len(s);
    if s.len() == 0 {
        assert(split_chars(s) =~~= seq![s]);
    } else if k == 0 {
        if s[0] == '/' {
            assert(s.take(0) =~= Seq::<char>::empty());
            assert(split_chars(s) =~~= seq![s.take(0)] + split_chars(s.skip(1)));
        }
    } else {
        let t = s.skip(1);
        assert forall|m: int| 0 <= m < k - 1 implies t[m] != '/' by {
            assert(t[m] == s[m + 1]);
        }
        lemma_split_chars_first(t, k - 1);
        lemma_split_chars_len(t);
        let rest = split_chars(t);
        if k == s.len() {
            assert(rest == seq![t]);
            assert(seq![s[0]] + t =~= s);
            assert(split_chars(s) =~~= seq![s]);
        } else if s[k] == '/' {
            assert(t[k - 1] == s[k]);
            assert(rest == seq![t.take(k - 1)] + split_chars(t.skip(k)));
            assert(rest[0] == t.take(k - 1));
            assert(seq![s[0]] + t.take(k - 1) =~= s.take(k));
            assert(t.skip(k) =~= s.skip(k + 1));
            assert(rest.skip(1) =~~= split_chars(s.skip(k + 1)));
            assert(split_chars(s) =~~= seq![s.take(k)] + split_chars(s.skip(k + 1)));
        }
    }
}

/// Split a path into its folder-name segments.
pub fn split_path(path: &str) -> (segs: Vec<String>)
    ensures
        segs@.map_values(|x: String| x@) == path_segs(path@),
{
    let n = path.unicode_len();
    let mut segs: Vec<String> = Vec::new();
    if n == 0 {
        proof {
            assert(segs@.map_values(|x: String| x@) =~= path_segs(path@));
        }
        return segs;
    }
    let ghost s = path@;
    proof {
        assert(s.skip(0) =~= s);
        assert(segs@.map_values(|x: String| x@) =~= Seq::<Seq<char>>::empty());
        assert(Seq::<Seq<char>>::empty() + split_chars(s) =~~= split_chars(s));
    }
    let mut start: usize = 0;
    let mut i: usize = 0;
    while i < n
        invariant
            s == path@,
            n == s.len(),
            0 <= start as int <= i as int <= n as int,
            forall|m: int| start as int <= m < i as int ==> s[m] != '/',
            split_chars(s) == segs@.map_values(|x: String| x@) + split_chars(
                s.skip(start as int),
            ),
        decreases n - i,
    {
        if path.get_char(i) == '/' {
            let seg = path.substring_char(start, i).to_owned();
            proof {
                let t = s.skip(start as int);
                let k = i as int - start as int;
                assert forall|m: int| 0 <= m < k implies t[m] != '/' by {
                    assert(t[m] == s[m + start as int]);
                }
                assert(t[k] == s[i as int]);
                lemma_split_chars_first(t, k);
                assert(t.take(k) =~= s.subrange(start as int, i as int));
                assert(t.skip(k + 1) =~= s.skip(i as int + 1));
                assert(seg@ == t.take(k));
                let f = |x: String| x@;
                assert(segs@.push(seg).map_values(f) =~= segs@.map_values(f).push(seg@));
                assert(segs@.map_values(f).push(seg@) + split_chars(s.skip(i as int + 1))
                    =~~= segs@.map_values(f) + (seq![seg@] + split_chars(s.skip(i as int + 1))));
            }
            segs.push(seg);
            start = i + 1;
        }
        i += 1;
    }
    let seg = path.substring_char(start, n).to_owned();
    proof {
        let t = s.skip(start as int);
        let k = n as int - start as int;
        assert forall|m: int| 0 <= m < k implies t[m] != '/' by {
            assert(t[m] == s[m + start as int]);
        }
        lemma_split_chars_first(t, k);
        assert(t =~= s.subrange(start as int, n as int));
        assert(seg@ == t);
        let f = |x: String| x@;
        assert(segs@.push(seg).map_values(f) =~= segs@.map_values(f).push(seg@));
        assert(segs@.map_values(f) + seq![seg@] =~~= segs@.map_values(f).push(seg@));
        assert(split_chars(s) =~~= segs@.push(seg).map_values(f));
    }
    segs.push(seg);
    segs
}

} // verus!
