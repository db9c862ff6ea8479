//! Ordering of directory entries: directories before files, case-insensitive
//! name order within each group, and a verified insertion sort.

use vstd::prelude::*;
use vstd::string::StrSliceExecFns;
use crate::state::DirEntryInfo;
use crate::textutil::{lower_of, to_lower};

verus! {

/// Lexicographic order on character sequences by code point.
pub open spec fn lex_le(a: Seq<char>, b: Seq<char>) -> bool
    decreases a.len(),
{
    if a.len() == 0 {
        true
    } else if b.len() == 0 {
        false
    } else if (a[0] as u32) < (b[0] as u32) {
        true
    } else if (a[0] as u32) > (b[0] as u32) {
        false
    } else {
        lex_le(a.skip(1), b.skip(1))
    }
}

/// Any two sequences compare one way or the other.
pub proof fn lemma_lex_le_total(a: Seq<char>, b: Seq<char>)
    ensures
        lex_le(a, b) || lex_le(b, a),
    decreases a.len(),
{
    if a.len() > 0 && b.len() > 0 && a[0] as u32 == b[0] as u32 {
        lemma_lex_le_total(a.skip(1), b.skip(1));
    }
}

/// The order is transitive.
pub proof fn lemma_lex_le_trans(a: Seq<char>, b: Seq<char>, c: Seq<char>)
    requires
        lex_le(a, b),
        lex_le(b, c),
    ensures
        lex_le(a, c),
    decreases a.len(),
{
    if a.len() > 0 && b.len() > 0 && c.len() > 0 {
        if a[0] as u32 == b[0] as u32 && b[0] as u32 == c[0] as u32 {
            lemma_lex_le_trans(a.skip(1), b.skip(1), c.skip(1));
        }
    }
}

/// The initial listing order: directories first, then case-insensitive name
/// order.
pub open spec fn entry_le(a: DirEntryInfo, b: DirEntryInfo) -> bool {
    if a.is_dir != b.is_dir {
        a.is_dir
    } else {
        lex_le(lower_of(a.name@), lower_of(b.name@))
    }
}

pub proof fn lemma_entry_le_total(a: DirEntryInfo, b: DirEntryInfo)
    ensures
        entry_le(a, b) || entry_le(b, a),
{
    if a.is_dir == b.is_dir {
        lemma_lex_le_total(lower_of(a.name@), lower_of(b.name@));
    }
}

pub proof fn lemma_entry_le_trans(a: DirEntryInfo, b: DirEntryInfo, c: DirEntryInfo)
    requires
        entry_le(a, b),
        entry_le(b, c),
    ensures
        entry_le(a, c),
{
    if a.is_dir == b.is_dir && b.is_dir == c.is_dir {
        lemma_lex_le_trans(lower_of(a.name@), lower_of(b.name@), lower_of(c.name@));
    }
}

/// Compare two character sequences lexicographically by code point.
pub fn lex_le_exec(a: &str, b: &str) -> (r: bool)
    ensures
        r == lex_le(a@, b@),
{
    let a_len = a.unicode_len();
    let b_len = b.unicode_len();
    proof {
        assert(a@.skip(0) =~= a@);
        assert(b@.skip(0) =~= b@);
    }
    let mut i: usize = 0;
    loop
        invariant_except_break
            a_len == a@.len(),
            b_len == b@.len(),
            i <= a_len,
            i <= b_len,
            lex_le(a@, b@) == lex_le(a@.skip(i as int), b@.skip(i as int)),
            lex_le(b@, a@) == lex_le(b@.skip(i as int), a@.skip(i as int)),
        ensures
            lex_le(a@, b@) == lex_le(a@.skip(i as int), b@.skip(i as int)),
            i <= a_len && i <= b_len,
            a_len == a@.len() && b_len == b@.len(),
            i == a_len || i == b_len || a@[i as int] as u32 != b@[i as int] as u32,
        decreases a_len - i,
    {
        if i >= a_len || i >= b_len {
            break;
        }
        let ca = a.get_char(i);
        let cb = b.get_char(i);
        proof {
            assert(a@.skip(i as int)[0] == a@[i as int]);
            assert(b@.skip(i as int)[0] == b@[i as int]);
            assert(a@.skip(i as int).skip(1) =~= a@.skip(i as int + 1));
            assert(b@.skip(i as int).skip(1) =~= b@.skip(i as int + 1));
        }
        if ca as u32 != cb as u32 {
            break;
        }
        i += 1;
    }
    proof {
        assert(a@.skip(i as int).len() == a@.len() - i);
        assert(b@.skip(i as int).len() == b@.len() - i);
        if i < a_len && i < b_len {
            assert(a@.skip(i as int)[0] == a@[i as int]);
            assert(b@.skip(i as int)[0] == b@[i as int]);
        }
    }
    if i >= a_len {
        true
    } else if i >= b_len {
        false
    } else {
        let ca = a.get_char(i);
        let cb = b.get_char(i);
        (ca as u32) < (cb as u32)
    }
}

/// Compare two entries in the initial listing order.
pub fn entry_le_exec(a: &DirEntryInfo, b: &DirEntryInfo) -> (r: bool)
    ensures
        r == entry_le(*a, *b),
{
    if a.is_dir != b.is_dir {
        a.is_dir
    } else {
        let la = to_lower(a.name.as_str());
        let lb = to_lower(b.name.as_str());
        lex_le_exec(la.as_str(), lb.as_str())
    }
}

/// Every pair of positions is ordered.
pub open spec fn sorted_entries(s: Seq<DirEntryInfo>) -> bool {
    forall|i: int, j: int| 0 <= i < j < s.len() ==> entry_le(#[trigger] s[i], #[trigger] s[j])
}

/// Sort entries into the initial listing order (a permutation of the input).
pub fn sort_entries(v: &mut Vec<DirEntryInfo>)
    ensures
        final(v)@.len() == old(v)@.len(),
        final(v)@.to_multiset() == old(v)@.to_multiset(),
        sorted_entries(final(v)@),
{
    let ghost orig = v@;
    let n = v.len();
    if n <= 1 {
        return;
    }
    let mut i: usize = 1;
    while i < n
        invariant
            n == v@.len(),
            1 <= i <= n,
            v@.to_multiset() == orig.to_multiset(),
            forall|a: int, b: int| 0 <= a < b < i ==> entry_le(#[trigger] v@[a], #[trigger] v@[b]),
        decreases n - i,
    {
        let mut j: usize = i;
        loop
            invariant_except_break
                n == v@.len(),
                1 <= i < n,
                0 <= j <= i,
                v@.to_multiset() == orig.to_multiset(),
                forall|a: int, b: int|
                    0 <= a < b <= i && b != j ==> entry_le(#[trigger] v@[a], #[trigger] v@[b]),
                forall|k: int| j < k <= i ==> entry_le(v@[j as int], #[trigger] v@[k]),
            ensures
                n == v@.len(),
                v@.to_multiset() == orig.to_multiset(),
                forall|a: int, b: int| 0 <= a < b <= i ==> entry_le(#[trigger] v@[a], #[trigger] v@[b]),
            decreases j,
    {
            if j == 0 {
                proof {
                    assert forall|a: int, b: int| 0 <= a < b <= i implies entry_le(
                        #[trigger] v@[a],
                        #[trigger] v@[b],
                    ) by {
                        if b == j {
                        } else if a == j {
                            assert(entry_le(v@[j as int], v@[b]));
                        }
                    }
                }
                break;
            }
            if entry_le_exec(&v[j - 1], &v[j]) {
                proof {
                    assert forall|a: int, b: int| 0 <= a < b <= i implies entry_le(
                        #[trigger] v@[a],
                        #[trigger] v@[b],
                    ) by {
                        if b == j {
                            if a < j - 1 {
                                lemma_entry_le_trans(v@[a], v@[j - 1], v@[j as int]);
                            }
                        } else if a == j {
                            assert(entry_le(v@[j as int], v@[b]));
                        }
                    }
                }
                break;
            }
            proof {
                lemma_entry_le_total(v@[j - 1], v@[j as int]);
            }
            let ghost before = v@;
            let x = v[j - 1].clone();
            let y = v[j].clone();
            v.set(j - 1, y);
            v.set(j, x);
            proof {
                assert(v@ =~= before.update(j - 1, before[j as int]).update(
                    j as int,
                    before[j - 1],
                ));
                assert(v@.to_multiset() == orig.to_multiset()) by {
                    lemma_adjacent_swap_multiset(before, j - 1);
                }
                assert forall|a: int, b: int|
                    0 <= a < b <= i && b != j - 1 implies entry_le(
                    #[trigger] v@[a],
                    #[trigger] v@[b],
                ) by {
                    if a == j - 1 {
                        if b == j {
                        } else {
                            assert(entry_le(before[j as int], before[b]));
                        }
                    } else if b == j {
                        assert(entry_le(before[a], before[j - 1]));
                    } else {
                        assert(entry_le(before[a], before[b]));
                    }
                }
                assert forall|k: int| j - 1 < k <= i implies entry_le(
                    v@[j - 1],
                    #[trigger] v@[k],
                ) by {
                    if k == j {
                    } else {
                        assert(entry_le(before[j as int], before[k]));
                    }
                }
            }
            j -= 1;
        }
        i += 1;
    }
}

/// Swapping two adjacent positions keeps the multiset of elements.
proof fn lemma_adjacent_swap_multiset(s: Seq<DirEntryInfo>, a: int)
    requires
        0 <= a,
        a + 1 < s.len(),
    ensures
        s.update(a, s[a + 1]).update(a + 1, s[a]).to_multiset() == s.to_multiset(),
{
    broadcast use vstd::seq_lib::group_to_multiset_ensures;
    broadcast use vstd::multiset::group_multiset_axioms;

    let x = s[a];
    let t = s.update(a, s[a + 1]).update(a + 1, x);
    assert(t[a + 1] == x);
    assert(t.remove(a + 1) =~= s.remove(a));
    assert(t.remove(a + 1).to_multiset() =~= t.to_multiset().remove(x));
    assert(s.remove(a).to_multiset() =~= s.to_multiset().remove(x));
    assert forall|y: DirEntryInfo| t.to_multiset().count(y) == s.to_multiset().count(y) by {
        assert(t.contains(x));
        assert(s.contains(x));
        assert(t.to_multiset().count(x) > 0);
        assert(s.to_multiset().count(x) > 0);
        if y == x {
            assert(t.to_multiset().remove(x).count(x) == t.to_multiset().count(x) - 1);
            assert(s.to_multiset().remove(x).count(x) == s.to_multiset().count(x) - 1);
        } else {
            assert(t.to_multiset().remove(x).count(y) == t.to_multiset().count(y));
            assert(s.to_multiset().remove(x).count(y) == s.to_multiset().count(y));
        }
    }
    assert(t.to_multiset() =~= s.to_multiset());
}

} // verus!
