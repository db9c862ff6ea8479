//! Prompt input editing and the rename-many template: a template must hold
//! exactly one `{}` placeholder, which splits it into a new prefix and
//! suffix around each name's variable segment.

use vstd::prelude::*;
use vstd::string::StringExecFns;
use vstd::string::StrSliceExecFns;
use crate::state::{CommandPaneState, PromptState};
use crate::textutil::push_char;

verus! {

/// The number of `{}` placeholders in `s`, counted left to right without
/// overlap.
pub open spec fn placeholder_count(s: Seq<char>) -> nat
    decreases s.len(),
{
    if s.len() < 2 {
        0
    } else if s[0] == '{' && s[1] == '}' {
        1 + placeholder_count(s.skip(2))
    } else {
        placeholder_count(s.skip(1))
    }
}

/// The index of the first `{}` in `s`, or the length when there is none.
pub open spec fn first_placeholder(s: Seq<char>) -> int
    decreases s.len(),
{
    if s.len() < 2 {
        s.len() as int
    } else if s[0] == '{' && s[1] == '}' {
        0
    } else {
        1 + first_placeholder(s.skip(1))
    }
}

proof fn lemma_first_placeholder_bounds(s: Seq<char>)
    ensures
        0 <= first_placeholder(s) <= s.len(),
        first_placeholder(s) + 2 <= s.len() ==> placeholder_count(s) > 0,
        first_placeholder(s) + 2 <= s.len() ==> s[first_placeholder(s)] == '{' && s[
            first_placeholder(s) + 1
        ] == '}',
        first_placeholder(s) + 2 > s.len() ==> placeholder_count(s) == 0,
        first_placeholder(s) + 2 <= s.len() ==> placeholder_count(s) == 1 + placeholder_count(
            s.skip(first_placeholder(s) + 2),
        ),
    decreases s.len(),
{
    if s.len() < 2 {
    } else if s[0] == '{' && s[1] == '}' {
    } else {
        lemma_first_placeholder_bounds(s.skip(1));
        let f = first_placeholder(s);
        if f + 2 <= s.len() {
            assert(s.skip(1)[f - 1] == s[f]);
            assert(s.skip(1)[f] == s[f + 1]);
            assert(s.skip(1).skip(first_placeholder(s.skip(1)) + 2) =~= s.skip(f + 2));
        } else {
            if first_placeholder(s.skip(1)) + 2 <= s.skip(1).len() {
                assert(f + 2 <= s.len());
            }
        }
    }
}

/// A valid rename template holds exactly one placeholder; it splits into the
/// text before and after it.
pub open spec fn spec_template_split(s: Seq<char>) -> Option<(Seq<char>, Seq<char>)> {
    if placeholder_count(s) == 1 {
        Some(
            (
                s.subrange(0, first_placeholder(s)),
                s.subrange(first_placeholder(s) + 2, s.len() as int),
            ),
        )
    } else {
        None
    }
}

/// Split a rename template around its placeholder: the text before and after
/// the one `{}`. A template without exactly one placeholder is rejected.
pub fn parse_template(s: &str) -> (r: Option<(String, String)>)
    ensures
        match r {
            Some(pair) => spec_template_split(s@) matches Some(sp) && pair.0@ == sp.0 && pair.1@
                == sp.1,
            None => spec_template_split(s@) is None,
        },
{
    let n = s.unicode_len();
    proof {
        lemma_first_placeholder_bounds(s@);
        assert(s@.skip(0) =~= s@);
    }
    let mut i: usize = 0;
    let mut fp: Option<usize> = None;
    let mut count: usize = 0;
    loop
        invariant_except_break
            n == s@.len(),
            i <= n,
            count <= 2,
            placeholder_count(s@) == count + placeholder_count(s@.skip(i as int)),
            first_placeholder(s@.skip(i as int)) + i == first_placeholder(s@) || count > 0,
            match fp {
                Some(f) => count > 0 && f as int == first_placeholder(s@),
                None => count == 0,
            },
        ensures
            n == s@.len(),
            count <= 2,
            count == 2 ==> placeholder_count(s@) >= 2,
            count < 2 ==> count == placeholder_count(s@),
            match fp {
                Some(f) => count > 0 && f as int == first_placeholder(s@),
                None => count == 0,
            },
        decreases n - i,
    {
        proof {
            lemma_first_placeholder_bounds(s@.skip(i as int));
        }
        if count >= 2 {
            break;
        }
        if n - i < 2 {
            proof {
                assert(s@.skip(i as int).len() < 2);
            }
            break;
        }
        let c0 = s.get_char(i);
        let c1 = s.get_char(i + 1);
        proof {
            assert(s@.skip(i as int)[0] == s@[i as int]);
            assert(s@.skip(i as int)[1] == s@[i as int + 1]);
            assert(s@.skip(i as int).skip(1) =~= s@.skip(i as int + 1));
            assert(s@.skip(i as int).skip(2) =~= s@.skip(i as int + 2));
        }
        if c0 == '{' && c1 == '}' {
            if count == 0 {
                fp = Some(i);
            }
            count += 1;
            i += 2;
        } else {
            i += 1;
        }
    }
    if count == 1 {
        let f = match fp {
            Some(f) => f,
            None => {
                proof {
                    assert(false);
                }
                unreached()
            },
        };
        proof {
            lemma_first_placeholder_bounds(s@);
        }
        let pre = s.substring_char(0, f).to_owned();
        let suf = s.substring_char(f + 2, n).to_owned();
        Some((pre, suf))
    } else {
        None
    }
}

/// `pre` starts `name`.
pub open spec fn has_prefix(name: Seq<char>, pre: Seq<char>) -> bool {
    pre.len() <= name.len() && name.subrange(0, pre.len() as int) == pre
}

/// `suf` ends `name`.
pub open spec fn has_suffix(name: Seq<char>, suf: Seq<char>) -> bool {
    suf.len() <= name.len() && name.subrange(name.len() - suf.len(), name.len() as int) == suf
}

/// The variable segment of `name` under the original `pre`/`suf` split, and
/// the renamed result: the prefix is stripped if present, then the suffix is
/// stripped if still present (falling back to the whole name at each step,
/// as strip-and-fall-back editing does), and the new prefix and suffix are
/// wrapped around what remains.
pub open spec fn spec_renamed(
    name: Seq<char>,
    pre: Seq<char>,
    suf: Seq<char>,
    new_pre: Seq<char>,
    new_suf: Seq<char>,
) -> Seq<char> {
    let a = if has_prefix(name, pre) {
        name.skip(pre.len() as int)
    } else {
        name
    };
    let v = if has_suffix(a, suf) {
        a.take(a.len() - suf.len())
    } else {
        name
    };
    new_pre + v + new_suf
}

/// Whether `pre` starts `name`.
pub fn starts_with_chars(name: &str, pre: &str) -> (r: bool)
    ensures
        r == has_prefix(name@, pre@),
{
    let nl = name.unicode_len();
    let pl = pre.unicode_len();
    if pl > nl {
        return false;
    }
    let mut i: usize = 0;
    while i < pl
        invariant
            nl == name@.len(),
            pl == pre@.len(),
            pl <= nl,
            i <= pl,
            forall|j: int| 0 <= j < i ==> name@[j] == pre@[j],
        decreases pl - i,
    {
        if name.get_char(i) != pre.get_char(i) {
            proof {
                assert(name@.subrange(0, pre@.len() as int)[i as int] == name@[i as int]);
            }
            return false;
        }
        i += 1;
    }
    proof {
        assert(name@.subrange(0, pre@.len() as int) =~= pre@);
    }
    true
}

/// Whether `suf` ends `name`.
pub fn ends_with_chars(name: &str, suf: &str) -> (r: bool)
    ensures
        r == has_suffix(name@, suf@),
{
    let nl = name.unicode_len();
    let sl = suf.unicode_len();
    if sl > nl {
        return false;
    }
    let base = nl - sl;
    let mut i: usize = 0;
    while i < sl
        invariant
            nl == name@.len(),
            sl == suf@.len(),
            sl <= nl,
            base == nl - sl,
            i <= sl,
            forall|j: int| 0 <= j < i ==> name@[base + j] == suf@[j],
        decreases sl - i,
    {
        if name.get_char(base + i) != suf.get_char(i) {
            proof {
                assert(name@.subrange(name@.len() - suf@.len(), name@.len() as int)[i as int]
                    == name@[base + i]);
            }
            return false;
        }
        i += 1;
    }
    proof {
        assert(name@.subrange(name@.len() - suf@.len(), name@.len() as int) =~= suf@);
    }
    true
}

/// Rename one item under a validated template: strip the original common
/// prefix and suffix from its name and wrap the new ones around the variable
/// segment.
pub fn apply_rename_template(
    name: &str,
    pre: &str,
    suf: &str,
    new_pre: &str,
    new_suf: &str,
) -> (r: String)
    ensures
        r@ == spec_renamed(name@, pre@, suf@, new_pre@, new_suf@),
{
    let nl = name.unicode_len();
    let pl = pre.unicode_len();
    let stripped: String = if starts_with_chars(name, pre) {
        name.substring_char(pl, nl).to_owned()
    } else {
        name.to_owned()
    };
    proof {
        if has_prefix(name@, pre@) {
            assert(stripped@ =~= name@.skip(pre@.len() as int));
        }
    }
    let al = stripped.as_str().unicode_len();
    let sl = suf.unicode_len();
    let var: String = if ends_with_chars(stripped.as_str(), suf) {
        proof {
            if has_prefix(name@, pre@) {
                assert(stripped@.subrange(0, (al - sl) as int) =~= name@.skip(
                    pre@.len() as int,
                ).take(name@.skip(pre@.len() as int).len() - suf@.len()));
            } else {
                assert(stripped@.subrange(0, (al - sl) as int) =~= name@.take(
                    name@.len() - suf@.len(),
                ));
            }
        }
        stripped.as_str().substring_char(0, al - sl).to_owned()
    } else {
        name.to_owned()
    };
    let mut r = new_pre.to_owned();
    r.append(var.as_str());
    r.append(new_suf);
    proof {
        assert(new_pre@ + var@ + new_suf@ =~= (new_pre@ + var@) + new_suf@);
    }
    r
}

impl PromptState {
    /// Insert `c` at the cursor; the cursor moves past it.
    pub fn insert_char(&mut self, c: char)
        requires
            old(self).cursor <= old(self).input@.len(),
        ensures
            final(self).input@ == old(self).input@.subrange(0, old(self).cursor as int).push(c)
                + old(self).input@.skip(old(self).cursor as int),
            final(self).cursor == old(self).cursor + 1,
            final(self).title == old(self).title,
            final(self).kind == old(self).kind,
    {
        let n = self.input.as_str().unicode_len();
        let mut head = self.input.as_str().substring_char(0, self.cursor).to_owned();
        push_char(&mut head, c);
        let new_cursor = head.as_str().unicode_len();
        let tail = self.input.as_str().substring_char(self.cursor, n);
        head.append(tail);
        self.input = head;
        self.cursor = new_cursor;
    }

    /// Remove the character before the cursor, when there is one.
    pub fn backspace(&mut self)
        requires
            old(self).cursor <= old(self).input@.len(),
        ensures
            final(self).title == old(self).title,
            final(self).kind == old(self).kind,
            old(self).cursor == 0 ==> *final(self) == *old(self),
            old(self).cursor > 0 ==> final(self).input@ == old(self).input@.subrange(
                0,
                old(self).cursor - 1,
            ) + old(self).input@.skip(old(self).cursor as int) && final(self).cursor == old(
                self,
            ).cursor - 1,
    {
        if self.cursor == 0 {
            return;
        }
        let n = self.input.as_str().unicode_len();
        let mut head = self.input.as_str().substring_char(0, self.cursor - 1).to_owned();
        let tail = self.input.as_str().substring_char(self.cursor, n);
        head.append(tail);
        self.input = head;
        self.cursor = self.cursor - 1;
    }
}

impl CommandPaneState {
    /// Insert `c` at the cursor; the cursor moves past it.
    pub fn insert_char(&mut self, c: char)
        requires
            old(self).cursor <= old(self).input@.len(),
        ensures
            final(self).input@ == old(self).input@.subrange(0, old(self).cursor as int).push(c)
                + old(self).input@.skip(old(self).cursor as int),
            final(self).cursor == old(self).cursor + 1,
            final(self).prompt == old(self).prompt,
            final(self).show_suggestions == old(self).show_suggestions,
    {
        let n = self.input.as_str().unicode_len();
        let mut head = self.input.as_str().substring_char(0, self.cursor).to_owned();
        push_char(&mut head, c);
        let new_cursor = head.as_str().unicode_len();
        let tail = self.input.as_str().substring_char(self.cursor, n);
        head.append(tail);
        self.input = head;
        self.cursor = new_cursor;
    }

    /// Remove the character before the cursor, when there is one.
    pub fn backspace(&mut self)
        requires
            old(self).cursor <= old(self).input@.len(),
        ensures
            final(self).prompt == old(self).prompt,
            final(self).show_suggestions == old(self).show_suggestions,
            old(self).cursor == 0 ==> *final(self) == *old(self),
            old(self).cursor > 0 ==> final(self).input@ == old(self).input@.subrange(
                0,
                old(self).cursor - 1,
            ) + old(self).input@.skip(old(self).cursor as int) && final(self).cursor == old(
                self,
            ).cursor - 1,
    {
        if self.cursor == 0 {
            return;
        }
        let n = self.input.as_str().unicode_len();
        let mut head = self.input.as_str().substring_char(0, self.cursor - 1).to_owned();
        let tail = self.input.as_str().substring_char(self.cursor, n);
        head.append(tail);
        self.input = head;
        self.cursor = self.cursor - 1;
    }
}

} // verus!
