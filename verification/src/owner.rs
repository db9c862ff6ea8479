//! Owner and group name resolution: parsing a colon-separated account table
//! (the `/etc/passwd` and `/etc/group` format), a bounded name cache behind
//! an explicit invalidation call, and the `user:group` display string.

use vstd::prelude::*;
use vstd::string::StringExecFns;
use vstd::string::StrSliceExecFns;
use crate::textutil::{
    dec_digits, find_first_char, first_index_of, lemma_first_index_of_bounds, push_char,
    spec_lines, spec_trim, split_lines, trim_spaces, u64_to_dec,
};

verus! {

/// Whether every character of `s` is a decimal digit.
pub open spec fn all_digits(s: Seq<char>) -> bool {
    forall|j: int| 0 <= j < s.len() ==> '0' <= #[trigger] s[j] <= '9'
}

/// The decimal value of a digit sequence.
pub open spec fn dec_value(s: Seq<char>) -> int
    decreases s.len(),
{
    if s.len() == 0 {
        0
    } else {
        dec_value(s.drop_last()) * 10 + (s[s.len() - 1] as int - '0' as int)
    }
}

/// What parsing `s` as an unsigned 32-bit decimal yields: its value when
/// `s` is nonempty, all digits, and in range.
pub open spec fn spec_parse_u32(s: Seq<char>) -> Option<u32> {
    if s.len() > 0 && all_digits(s) && dec_value(s) <= u32::MAX {
        Some(dec_value(s) as u32)
    } else {
        None
    }
}

/// Parse a decimal unsigned 32-bit number.
pub fn parse_u32(s: &str) -> (r: Option<u32>)
    ensures
        r == spec_parse_u32(s@),
{
    let n = s.unicode_len();
    if n == 0 {
        return None;
    }
    let mut acc: u64 = 0;
    let mut i: usize = 0;
    proof {
        assert(s@.subrange(0, 0) =~= Seq::<char>::empty());
    }
    while i < n
        invariant
            n == s@.len(),
            0 < n,
            i <= n,
            all_digits(s@.subrange(0, i as int)),
            acc as int == dec_value(s@.subrange(0, i as int)),
            acc <= u32::MAX,
        decreases n - i,
    {
        let c = s.get_char(i);
        if !(c >= '0' && c <= '9') {
            proof {
                assert(!all_digits(s@));
            }
            return None;
        }
        let d = (c as u32) - 48;
        let next: u64 = acc * 10 + (d as u64);
        proof {
            assert(s@.subrange(0, i as int + 1).drop_last() =~= s@.subrange(0, i as int));
            assert(s@.subrange(0, i as int + 1)[i as int] == s@[i as int]);
        }
        if next > 0xffff_ffff {
            proof {
                lemma_dec_value_tail_grows(s@, i as int + 1);
            }
            return None;
        }
        acc = next;
        i += 1;
    }
    proof {
        assert(s@.subrange(0, n as int) =~= s@);
    }
    Some(acc as u32)
}

/// Once a digit prefix exceeds the 32-bit range, the whole number does.
proof fn lemma_dec_value_tail_grows(s: Seq<char>, k: int)
    requires
        0 <= k <= s.len(),
        all_digits(s.subrange(0, k)),
        dec_value(s.subrange(0, k)) > u32::MAX,
    ensures
        all_digits(s) ==> dec_value(s) > u32::MAX,
    decreases s.len() - k,
{
    if k == s.len() {
        assert(s.subrange(0, k) =~= s);
    } else {
        if all_digits(s) {
            assert(all_digits(s.subrange(0, k + 1))) by {
                assert forall|j: int| 0 <= j < k + 1 implies '0' <= #[trigger] s.subrange(
                    0,
                    k + 1,
                )[j] <= '9' by {
                    assert(s.subrange(0, k + 1)[j] == s[j]);
                }
            }
            assert(s.subrange(0, k + 1).drop_last() =~= s.subrange(0, k));
            assert(dec_value(s.subrange(0, k + 1)) > u32::MAX) by {
                assert(s.subrange(0, k + 1)[k] >= '0');
            }
            lemma_dec_value_tail_grows(s, k + 1);
        }
    }
}

/// The account name a table line contributes for `id`: the first field,
/// when the line is not blank or a comment, has at least three
/// colon-separated fields, and its third field parses to `id`.
pub open spec fn line_owner_name(line: Seq<char>, id: u32) -> Option<Seq<char>> {
    if spec_trim(line).len() == 0 || line[0] == '#' {
        None
    } else {
        let c1 = first_index_of(line, ':');
        if c1 == line.len() {
            None
        } else {
            let rest1 = line.skip(c1 + 1);
            let c2 = first_index_of(rest1, ':');
            if c2 == rest1.len() {
                None
            } else {
                let rest2 = rest1.skip(c2 + 1);
                let c3 = first_index_of(rest2, ':');
                let id_str = rest2.subrange(0, c3);
                if spec_parse_u32(id_str) == Some(id) {
                    Some(line.subrange(0, c1))
                } else {
                    None
                }
            }
        }
    }
}

/// The name the whole table resolves `id` to: the first line that matches.
pub open spec fn spec_table_owner(lines: Seq<Seq<char>>, id: u32) -> Option<Seq<char>>
    decreases lines.len(),
{
    if lines.len() == 0 {
        None
    } else if line_owner_name(lines[0], id) is Some {
        line_owner_name(lines[0], id)
    } else {
        spec_table_owner(lines.skip(1), id)
    }
}

/// The name one table line contributes for `id`, if any.
fn owner_name_in_line(line: &str, id: u32) -> (r: Option<String>)
    ensures
        match r {
            Some(nm) => line_owner_name(line@, id) == Some(nm@),
            None => line_owner_name(line@, id) is None,
        },
{
    let trimmed = trim_spaces(line);
    if trimmed.as_str().unicode_len() == 0 {
        return None;
    }
    if line.get_char(0) == '#' {
        return None;
    }
    let n = line.unicode_len();
    let c1 = find_first_char(line, ':');
    if c1 == n {
        return None;
    }
    proof {
        lemma_first_index_of_bounds(line@, ':');
    }
    let rest1 = line.substring_char(c1 + 1, n);
    let rest1_len = rest1.unicode_len();
    let c2 = find_first_char(rest1, ':');
    if c2 == rest1_len {
        return None;
    }
    proof {
        lemma_first_index_of_bounds(rest1@, ':');
    }
    let rest2 = rest1.substring_char(c2 + 1, rest1_len);
    let rest2_len = rest2.unicode_len();
    let c3 = find_first_char(rest2, ':');
    proof {
        lemma_first_index_of_bounds(rest2@, ':');
    }
    let id_str = rest2.substring_char(0, c3);
    match parse_u32(id_str) {
        Some(v) => {
            if v == id {
                Some(line.substring_char(0, c1).to_owned())
            } else {
                None
            }
        },
        None => None,
    }
}

/// Resolve `id` against the text of a colon-separated account table: the
/// first non-comment line whose third field is `id` names it.
pub fn lookup_name_in_table(text: &str, id: u32) -> (r: Option<String>)
    ensures
        match r {
            Some(nm) => spec_table_owner(spec_lines(text@), id) == Some(nm@),
            None => spec_table_owner(spec_lines(text@), id) is None,
        },
{
    let lines = split_lines(text);
    let ghost all = spec_lines(text@);
    proof {
        assert(all.skip(0) =~= all);
    }
    let mut k: usize = 0;
    while k < lines.len()
        invariant
            all == spec_lines(text@),
            lines@.len() == all.len(),
            forall|j: int| 0 <= j < all.len() ==> lines@[j]@ == #[trigger] all[j],
            k <= lines@.len(),
            spec_table_owner(all, id) == spec_table_owner(all.skip(k as int), id),
        decreases lines@.len() - k,
    {
        proof {
            assert(all.skip(k as int)[0] == all[k as int]);
            assert(all.skip(k as int).skip(1) =~= all.skip(k as int + 1));
        }
        match owner_name_in_line(lines[k].as_str(), id) {
            Some(nm) => {
                proof {
                    assert(lines@[k as int]@ == all[k as int]);
                    assert(line_owner_name(all[k as int], id) == Some(nm@));
                    assert(spec_table_owner(all.skip(k as int), id) == Some(nm@));
                }
                return Some(nm);
            },
            None => {},
        }
        k += 1;
    }
    proof {
        assert(all.skip(lines@.len() as int) =~= Seq::<Seq<char>>::empty());
    }
    None
}

/// A bounded cache of resolved user and group names, keyed by numeric id,
/// behind an explicit invalidation call.
pub struct OwnerCache {
    pub users: Vec<(u32, String)>,
    pub groups: Vec<(u32, String)>,
}

/// The first cached name for `id`, if any.
pub open spec fn spec_cached(table: Seq<(u32, String)>, id: u32) -> Option<Seq<char>>
    decreases table.len(),
{
    if table.len() == 0 {
        None
    } else if table[0].0 == id {
        Some(table[0].1@)
    } else {
        spec_cached(table.skip(1), id)
    }
}

/// Look up `id` in one cache table.
fn cached_name(table: &Vec<(u32, String)>, id: u32) -> (r: Option<String>)
    ensures
        match r {
            Some(nm) => spec_cached(table@, id) == Some(nm@),
            None => spec_cached(table@, id) is None,
        },
{
    proof {
        assert(table@.skip(0) =~= table@);
    }
    let mut k: usize = 0;
    while k < table.len()
        invariant
            k <= table@.len(),
            spec_cached(table@, id) == spec_cached(table@.skip(k as int), id),
        decreases table@.len() - k,
    {
        proof {
            assert(table@.skip(k as int)[0] == table@[k as int]);
            assert(table@.skip(k as int).skip(1) =~= table@.skip(k as int + 1));
        }
        if table[k].0 == id {
            return Some(table[k].1.clone());
        }
        k += 1;
    }
    None
}

impl OwnerCache {
    pub fn new() -> (r: OwnerCache)
        ensures
            r.users@.len() == 0,
            r.groups@.len() == 0,
    {
        OwnerCache { users: Vec::new(), groups: Vec::new() }
    }

    /// The cached user name for `uid`, if any.
    pub fn user_name(&self, uid: u32) -> (r: Option<String>)
        ensures
            match r {
                Some(nm) => spec_cached(self.users@, uid) == Some(nm@),
                None => spec_cached(self.users@, uid) is None,
            },
    {
        cached_name(&self.users, uid)
    }

    /// The cached group name for `gid`, if any.
    pub fn group_name(&self, gid: u32) -> (r: Option<String>)
        ensures
            match r {
                Some(nm) => spec_cached(self.groups@, gid) == Some(nm@),
                None => spec_cached(self.groups@, gid) is None,
            },
    {
        cached_name(&self.groups, gid)
    }

    /// Remember a resolved user name.
    pub fn remember_user(&mut self, uid: u32, name: String)
        ensures
            final(self).users@ == old(self).users@.push((uid, name)),
            final(self).groups == old(self).groups,
    {
        self.users.push((uid, name));
    }

    /// Remember a resolved group name.
    pub fn remember_group(&mut self, gid: u32, name: String)
        ensures
            final(self).groups@ == old(self).groups@.push((gid, name)),
            final(self).users == old(self).users,
    {
        self.groups.push((gid, name));
    }
}

/// Drop every cached owner and group name, forcing fresh lookups.
pub fn clear_owner_cache(cache: &mut OwnerCache)
    ensures
        final(cache).users@.len() == 0,
        final(cache).groups@.len() == 0,
{
    cache.users = Vec::new();
    cache.groups = Vec::new();
}

/// The `user:group` display string: each side is the resolved name, or the
/// numeric id when resolution failed.
pub open spec fn spec_owner_string(
    uid: u32,
    gid: u32,
    user: Option<String>,
    group: Option<String>,
) -> Seq<char> {
    let u = match user {
        Some(nm) => nm@,
        None => dec_digits(uid as nat),
    };
    let g = match group {
        Some(nm) => nm@,
        None => dec_digits(gid as nat),
    };
    u + seq![':'] + g
}

/// Format the owner column for a file owned by `uid`:`gid`.
pub fn owner_string(uid: u32, gid: u32, user: Option<String>, group: Option<String>) -> (r:
    String)
    ensures
        r@ == spec_owner_string(uid, gid, user, group),
{
    let mut r = match &user {
        Some(nm) => nm.clone(),
        None => u64_to_dec(uid as u64),
    };
    push_char(&mut r, ':');
    let g = match &group {
        Some(nm) => nm.clone(),
        None => u64_to_dec(gid as u64),
    };
    r.append(g.as_str());
    proof {
        let u0 = match user {
            Some(nm) => nm@,
            None => dec_digits(uid as nat),
        };
        let g0 = match group {
            Some(nm) => nm@,
            None => dec_digits(gid as nat),
        };
        assert(r@ =~= u0 + seq![':'] + g0);
    }
    r
}

} // verus!
