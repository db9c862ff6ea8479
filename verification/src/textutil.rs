//! Text helpers shared by the session core: case folding, display width,
//! sanitizing, decimal rendering, substring search, and common affixes.

use vstd::prelude::*;
use vstd::string::StringExecFns;
use vstd::string::StrSliceExecFns;

verus! {

/// What `str::to_lowercase` returns for a given character sequence; Unicode
/// case folding depends on the characters alone.
pub uninterp spec fn lower_of(s: Seq<char>) -> Seq<char>;

/// Relies on str::to_lowercase: lowercases the characters; an empty string
/// stays empty.
#[verifier::external_body]
pub fn to_lower(s: &str) -> (r: String)
    ensures
        r@ == lower_of(s@),
        s@.len() == 0 ==> r@.len() == 0,
{
    s.to_lowercase()
}

/// The terminal column width `unicode_width` reports for one character
/// (zero where it reports none, as for control characters).
pub uninterp spec fn char_width_of(c: char) -> nat;

/// Relies on unicode_width::UnicodeWidthChar::width: the column width of a
/// character depends on the character alone.
#[verifier::external_body]
pub fn char_width(c: char) -> (r: usize)
    ensures
        r as nat == char_width_of(c),
{
    unicode_width::UnicodeWidthChar::width(c).unwrap_or(0)
}

/// Relies on String::push: appends exactly the one character.
#[verifier::external_body]
pub fn push_char(s: &mut String, c: char)
    ensures
        final(s)@ == old(s)@.push(c),
{
    s.push(c);
}

/// A control character is neutralized to a space; anything else is kept.
pub open spec fn spec_sanitize_char(c: char) -> char {
    if (c as u32) < 32 || c as u32 == 127 {
        ' '
    } else {
        c
    }
}

/// Neutralize control characters so a preview line cannot disturb the
/// terminal.
pub fn sanitize_line(s: &str) -> (r: String)
    ensures
        r@.len() == s@.len(),
        forall|j: int| 0 <= j < s@.len() ==> r@[j] == spec_sanitize_char(#[trigger] s@[j]),
{
    let n = s.unicode_len();
    let mut r = String::new();
    let mut i: usize = 0;
    while i < n
        invariant
            n == s@.len(),
            i <= n,
            r@.len() == i,
            forall|j: int| 0 <= j < i ==> r@[j] == spec_sanitize_char(#[trigger] s@[j]),
        decreases n - i,
    {
        let c = s.get_char(i);
        let keep = (c as u32) >= 32 && (c as u32) != 127;
        if keep {
            push_char(&mut r, c);
        } else {
            push_char(&mut r, ' ');
        }
        i += 1;
    }
    r
}

/// The decimal digit character for `d` below ten.
pub open spec fn digit_char(d: nat) -> char {
    if d == 0 { '0' }
    else if d == 1 { '1' }
    else if d == 2 { '2' }
    else if d == 3 { '3' }
    else if d == 4 { '4' }
    else if d == 5 { '5' }
    else if d == 6 { '6' }
    else if d == 7 { '7' }
    else if d == 8 { '8' }
    else { '9' }
}

/// The decimal rendering of `n`, most significant digit first.
pub open spec fn dec_digits(n: nat) -> Seq<char>
    decreases n,
{
    if n < 10 {
        seq![digit_char(n)]
    } else {
        dec_digits(n / 10).push(digit_char(n % 10))
    }
}

/// Render `n` in decimal.
pub fn u64_to_dec(n: u64) -> (r: String)
    ensures
        r@ == dec_digits(n as nat),
    decreases n,
{
    let d = n % 10;
    let c = if d == 0 { '0' }
        else if d == 1 { '1' }
        else if d == 2 { '2' }
        else if d == 3 { '3' }
        else if d == 4 { '4' }
        else if d == 5 { '5' }
        else if d == 6 { '6' }
        else if d == 7 { '7' }
        else if d == 8 { '8' }
        else { '9' };
    if n < 10 {
        let mut r = String::new();
        push_char(&mut r, c);
        proof {
            assert(r@ =~= seq![digit_char(n as nat)]);
        }
        r
    } else {
        let mut r = u64_to_dec(n / 10);
        push_char(&mut r, c);
        r
    }
}

/// `needle` occurs in `hay` starting at `i`.
pub open spec fn occurs_at(hay: Seq<char>, needle: Seq<char>, i: int) -> bool {
    0 <= i && i + needle.len() <= hay.len() && hay.subrange(i, i + needle.len()) == needle
}

/// `needle` occurs somewhere in `hay`.
pub open spec fn has_substring(hay: Seq<char>, needle: Seq<char>) -> bool {
    exists|i: int| occurs_at(hay, needle, i)
}

/// Whether `needle` occurs at position `i` of `hay`.
fn check_occurs_at(hay: &str, needle: &str, i: usize, hay_len: usize, needle_len: usize) -> (r:
    bool)
    requires
        hay_len == hay@.len(),
        needle_len == needle@.len(),
        i + needle_len <= hay_len,
    ensures
        r == occurs_at(hay@, needle@, i as int),
{
    let mut j: usize = 0;
    while j < needle_len
        invariant
            hay_len == hay@.len(),
            needle_len == needle@.len(),
            i + needle_len <= hay_len,
            j <= needle_len,
            forall|k: int| 0 <= k < j ==> hay@[i + k] == needle@[k],
        decreases needle_len - j,
    {
        if hay.get_char(i + j) != needle.get_char(j) {
            proof {
                assert(hay@.subrange(i as int, i + needle@.len())[j as int] == hay@[i + j]);
            }
            return false;
        }
        j += 1;
    }
    proof {
        assert(hay@.subrange(i as int, i + needle@.len()) =~= needle@);
    }
    true
}

/// Substring search: whether `needle` occurs in `hay`.
pub fn contains_sub(hay: &str, needle: &str) -> (r: bool)
    ensures
        r == has_substring(hay@, needle@),
{
    let hay_len = hay.unicode_len();
    let needle_len = needle.unicode_len();
    if needle_len == 0 {
        proof {
            assert(hay@.subrange(0, 0) =~= needle@);
            assert(occurs_at(hay@, needle@, 0));
        }
        return true;
    }
    if needle_len > hay_len {
        proof {
            assert forall|i: int| !occurs_at(hay@, needle@, i) by {}
        }
        return false;
    }
    let mut i: usize = 0;
    while i <= hay_len - needle_len
        invariant
            hay_len == hay@.len(),
            needle_len == needle@.len(),
            1 <= needle_len <= hay_len,
            i <= hay_len - needle_len + 1,
            forall|k: int| 0 <= k < i ==> !occurs_at(hay@, needle@, k),
        decreases hay_len - i,
    {
        if check_occurs_at(hay, needle, i, hay_len, needle_len) {
            return true;
        }
        i += 1;
    }
    proof {
        assert forall|k: int| !occurs_at(hay@, needle@, k) by {}
    }
    false
}

/// Length of the longest common prefix of `a` and `b`.
pub open spec fn common_prefix_len(a: Seq<char>, b: Seq<char>) -> nat
    decreases a.len(),
{
    if a.len() == 0 || b.len() == 0 || a[0] != b[0] {
        0
    } else {
        1 + common_prefix_len(a.skip(1), b.skip(1))
    }
}

/// The longest common prefix of `a` and `b`.
pub open spec fn lcp2(a: Seq<char>, b: Seq<char>) -> Seq<char> {
    a.subrange(0, common_prefix_len(a, b) as int)
}

/// The longest common suffix of `a` and `b`: the reversed longest common
/// prefix of the reversals.
pub open spec fn lcs2(a: Seq<char>, b: Seq<char>) -> Seq<char> {
    a.subrange(a.len() - common_prefix_len(a.reverse(), b.reverse()), a.len() as int)
}

/// A first mismatch (or running out of characters) pins the common prefix
/// length.
proof fn lemma_cpl_at(a: Seq<char>, b: Seq<char>, k: int)
    requires
        0 <= k <= a.len(),
        k <= b.len(),
        forall|j: int| 0 <= j < k ==> a[j] == b[j],
        k == a.len() || k == b.len() || a[k] != b[k],
    ensures
        common_prefix_len(a, b) == k,
    decreases k,
{
    if k == 0 {
    } else {
        assert(a[0] == b[0]);
        lemma_cpl_at(a.skip(1), b.skip(1), k - 1);
    }
}

/// The common prefix length never exceeds either length.
proof fn lemma_cpl_bound(a: Seq<char>, b: Seq<char>)
    ensures
        common_prefix_len(a, b) <= a.len(),
        common_prefix_len(a, b) <= b.len(),
    decreases a.len(),
{
    if a.len() == 0 || b.len() == 0 || a[0] != b[0] {
    } else {
        lemma_cpl_bound(a.skip(1), b.skip(1));
    }
}

/// The longest common prefix of two strings.
pub fn common_prefix(a: &str, b: &str) -> (r: String)
    ensures
        r@ == lcp2(a@, b@),
{
    let a_len = a.unicode_len();
    let b_len = b.unicode_len();
    let mut k: usize = 0;
    loop
        invariant_except_break
            a_len == a@.len(),
            b_len == b@.len(),
            k <= a_len,
            k <= b_len,
            forall|j: int| 0 <= j < k ==> a@[j] == b@[j],
        ensures
            k <= a_len,
            k <= b_len,
            forall|j: int| 0 <= j < k ==> a@[j] == b@[j],
            k == a_len || k == b_len || a@[k as int] != b@[k as int],
        decreases a_len - k,
    {
        if k >= a_len || k >= b_len {
            break;
        }
        if a.get_char(k) != b.get_char(k) {
            break;
        }
        k += 1;
    }
    proof {
        lemma_cpl_at(a@, b@, k as int);
    }
    a.substring_char(0, k).to_owned()
}

/// The longest common suffix of two strings.
pub fn common_suffix(a: &str, b: &str) -> (r: String)
    ensures
        r@ == lcs2(a@, b@),
{
    let a_len = a.unicode_len();
    let b_len = b.unicode_len();
    let mut k: usize = 0;
    loop
        invariant_except_break
            a_len == a@.len(),
            b_len == b@.len(),
            k <= a_len,
            k <= b_len,
            forall|j: int| 0 <= j < k ==> a@.reverse()[j] == b@.reverse()[j],
        ensures
            k <= a_len,
            k <= b_len,
            forall|j: int| 0 <= j < k ==> a@.reverse()[j] == b@.reverse()[j],
            k == a_len || k == b_len || a@.reverse()[k as int] != b@.reverse()[k as int],
        decreases a_len - k,
    {
        if k >= a_len || k >= b_len {
            break;
        }
        proof {
            assert(a@.reverse()[k as int] == a@[a_len - 1 - k]);
            assert(b@.reverse()[k as int] == b@[b_len - 1 - k]);
        }
        if a.get_char(a_len - 1 - k) != b.get_char(b_len - 1 - k) {
            break;
        }
        k += 1;
    }
    proof {
        lemma_cpl_at(a@.reverse(), b@.reverse(), k as int);
    }
    a.substring_char(a_len - k, a_len).to_owned()
}

/// The fold of `lcp2` over the first `i` names (the whole first name when
/// `i` is one).
pub open spec fn spec_prefix_fold(names: Seq<String>, i: int) -> Seq<char>
    decreases i,
{
    if i <= 1 {
        names[0]@
    } else {
        lcp2(spec_prefix_fold(names, i - 1), names[i - 1]@)
    }
}

/// The fold of `lcs2` over the first `i` names.
pub open spec fn spec_suffix_fold(names: Seq<String>, i: int) -> Seq<char>
    decreases i,
{
    if i <= 1 {
        names[0]@
    } else {
        lcs2(spec_suffix_fold(names, i - 1), names[i - 1]@)
    }
}

/// The common prefix and the common suffix shared by all of `names` (a pair
/// of empty strings when `names` is empty), each the fold of the pairwise
/// operation over the list.
pub fn common_affixes(names: &Vec<String>) -> (r: (String, String))
    ensures
        names@.len() == 0 ==> r.0@ == Seq::<char>::empty() && r.1@ == Seq::<char>::empty(),
        names@.len() > 0 ==> r.0@ == spec_prefix_fold(names@, names@.len() as int)
            && r.1@ == spec_suffix_fold(names@, names@.len() as int),
{
    if names.len() == 0 {
        return (String::new(), String::new());
    }
    let mut pre = names[0].clone();
    let mut i: usize = 1;
    while i < names.len()
        invariant
            1 <= i <= names@.len(),
            pre@ == spec_prefix_fold(names@, i as int),
        decreases names@.len() - i,
    {
        pre = common_prefix(pre.as_str(), names[i].as_str());
        i += 1;
    }
    let mut suf = names[0].clone();
    let mut j: usize = 1;
    while j < names.len()
        invariant
            1 <= j <= names@.len(),
            suf@ == spec_suffix_fold(names@, j as int),
        decreases names@.len() - j,
    {
        suf = common_suffix(suf.as_str(), names[j].as_str());
        j += 1;
    }
    (pre, suf)
}

/// The display width of a character sequence: the sum of its characters'
/// column widths.
pub open spec fn width_sum(s: Seq<char>) -> nat
    decreases s.len(),
{
    if s.len() == 0 {
        0
    } else {
        char_width_of(s[0]) + width_sum(s.skip(1))
    }
}

/// Appending one character adds its width.
proof fn lemma_width_sum_snoc(s: Seq<char>, c: char)
    ensures
        width_sum(s.push(c)) == width_sum(s) + char_width_of(c),
    decreases s.len(),
{
    if s.len() == 0 {
        assert(s.push(c).skip(1) =~= Seq::<char>::empty());
        assert(s.push(c)[0] == c);
        assert(width_sum(Seq::<char>::empty()) == 0);
        assert(width_sum(s) == 0);
    } else {
        assert(s.push(c).skip(1) =~= s.skip(1).push(c));
        assert(s.push(c)[0] == s[0]);
        lemma_width_sum_snoc(s.skip(1), c);
    }
}

/// The longest prefix of `s` whose display width fits in `max_w`: either the
/// whole string fits, or adding the next character would exceed `max_w`.
pub fn truncate_to_width(s: &str, max_w: usize) -> (r: String)
    ensures
        exists|k: int|
            0 <= k <= s@.len() && r@ == #[trigger] s@.subrange(0, k) && width_sum(r@) <= max_w
                && (k == s@.len() || width_sum(s@.subrange(0, k + 1)) > max_w),
{
    let n = s.unicode_len();
    let mut r = String::new();
    let mut used: usize = 0;
    let mut i: usize = 0;
    while i < n
        invariant
            n == s@.len(),
            i <= n,
            r@ =~= s@.subrange(0, i as int),
            used as nat == width_sum(s@.subrange(0, i as int)),
            used <= max_w,
        decreases n - i,
    {
        let c = s.get_char(i);
        let cw = char_width(c);
        if cw > max_w - used {
            proof {
                lemma_width_sum_snoc(s@.subrange(0, i as int), c);
                assert(s@.subrange(0, i as int + 1) =~= s@.subrange(0, i as int).push(s@[i as int]));
            }
            return r;
        }
        push_char(&mut r, c);
        used = used + cw;
        proof {
            lemma_width_sum_snoc(s@.subrange(0, i as int), c);
            assert(s@.subrange(0, i as int + 1) =~= s@.subrange(0, i as int).push(s@[i as int]));
        }
        i += 1;
    }
    r
}

/// ASCII whitespace, the characters trimmed from user input.
pub open spec fn is_space(c: char) -> bool {
    c == ' ' || c == '\t' || c == '\n' || c == '\r'
}

/// The index of the first non-whitespace character, or the length.
pub open spec fn first_non_space(s: Seq<char>) -> int
    decreases s.len(),
{
    if s.len() == 0 {
        0
    } else if !is_space(s[0]) {
        0
    } else {
        1 + first_non_space(s.skip(1))
    }
}

/// The index one past the last non-whitespace character, or zero.
pub open spec fn last_non_space_end(s: Seq<char>) -> int
    decreases s.len(),
{
    if s.len() == 0 {
        0
    } else if !is_space(s[s.len() - 1]) {
        s.len() as int
    } else {
        last_non_space_end(s.drop_last())
    }
}

/// `s` with leading and trailing ASCII whitespace removed; the whole string
/// is whitespace exactly when the result is empty.
pub open spec fn spec_trim(s: Seq<char>) -> Seq<char> {
    if first_non_space(s) == s.len() {
        Seq::<char>::empty()
    } else {
        s.subrange(first_non_space(s), last_non_space_end(s))
    }
}

proof fn lemma_first_non_space_bounds(s: Seq<char>)
    ensures
        0 <= first_non_space(s) <= s.len(),
        forall|j: int| 0 <= j < first_non_space(s) ==> is_space(s[j]),
        first_non_space(s) < s.len() ==> !is_space(s[first_non_space(s)]),
    decreases s.len(),
{
    if s.len() > 0 && is_space(s[0]) {
        lemma_first_non_space_bounds(s.skip(1));
        assert forall|j: int| 0 <= j < first_non_space(s) implies is_space(s[j]) by {
            if j > 0 {
                assert(s.skip(1)[j - 1] == s[j]);
            }
        }
        if first_non_space(s) < s.len() {
            assert(s.skip(1)[first_non_space(s) - 1] == s[first_non_space(s)]);
        }
    }
}

proof fn lemma_last_non_space_bounds(s: Seq<char>)
    ensures
        0 <= last_non_space_end(s) <= s.len(),
        forall|j: int| last_non_space_end(s) <= j < s.len() ==> is_space(s[j]),
        last_non_space_end(s) > 0 ==> !is_space(s[last_non_space_end(s) - 1]),
    decreases s.len(),
{
    if s.len() > 0 && is_space(s[s.len() - 1]) {
        lemma_last_non_space_bounds(s.drop_last());
        assert forall|j: int| last_non_space_end(s) <= j < s.len() implies is_space(s[j]) by {
            if j < s.len() - 1 {
                assert(s.drop_last()[j] == s[j]);
            }
        }
        if last_non_space_end(s) > 0 {
            assert(s.drop_last()[last_non_space_end(s) - 1] == s[last_non_space_end(s) - 1]);
        }
    }
}

/// Remove leading and trailing ASCII whitespace.
pub fn trim_spaces(s: &str) -> (r: String)
    ensures
        r@ == spec_trim(s@),
{
    let n = s.unicode_len();
    proof {
        lemma_first_non_space_bounds(s@);
        lemma_last_non_space_bounds(s@);
    }
    let mut lo: usize = 0;
    loop
        invariant_except_break
            n == s@.len(),
            lo <= n,
            forall|j: int| 0 <= j < lo ==> is_space(s@[j]),
        ensures
            lo <= n,
            forall|j: int| 0 <= j < lo ==> is_space(s@[j]),
            lo == n || !is_space(s@[lo as int]),
        decreases n - lo,
    {
        if lo >= n {
            break;
        }
        let c = s.get_char(lo);
        let sp = c == ' ' || c == '\t' || c == '\n' || c == '\r';
        if !sp {
            break;
        }
        lo += 1;
    }
    proof {
        let f = first_non_space(s@);
        assert(f == lo) by {
            if f > lo {
                assert(is_space(s@[lo as int]));
            }
            if f < lo {
                assert(is_space(s@[f]));
            }
        }
    }
    if lo == n {
        return String::new();
    }
    let mut hi: usize = n;
    loop
        invariant_except_break
            n == s@.len(),
            lo < n,
            lo < hi <= n,
            !is_space(s@[lo as int]),
            forall|j: int| hi <= j < n ==> is_space(s@[j]),
        ensures
            lo < hi <= n,
            forall|j: int| hi <= j < n ==> is_space(s@[j]),
            !is_space(s@[hi - 1]),
        decreases hi,
    {
        let c = s.get_char(hi - 1);
        let sp = c == ' ' || c == '\t' || c == '\n' || c == '\r';
        if !sp {
            break;
        }
        proof {
            assert(hi - 1 != lo);
        }
        hi -= 1;
    }
    proof {
        let e = last_non_space_end(s@);
        assert(e == hi) by {
            if e > hi {
                assert(is_space(s@[e - 1]));
            }
            if e < hi {
                assert(is_space(s@[hi - 1]));
            }
        }
        assert(first_non_space(s@) < s@.len());
    }
    s.substring_char(lo, hi).to_owned()
}

/// The index of the first newline in `s`, or the length.
pub open spec fn first_newline(s: Seq<char>) -> int
    decreases s.len(),
{
    if s.len() == 0 {
        0
    } else if s[0] == '\n' {
        0
    } else {
        1 + first_newline(s.skip(1))
    }
}

proof fn lemma_first_newline_bounds(s: Seq<char>)
    ensures
        0 <= first_newline(s) <= s.len(),
        forall|j: int| 0 <= j < first_newline(s) ==> s[j] != '\n',
        first_newline(s) < s.len() ==> s[first_newline(s)] == '\n',
    decreases s.len(),
{
    if s.len() > 0 && s[0] != '\n' {
        lemma_first_newline_bounds(s.skip(1));
        assert forall|j: int| 0 <= j < first_newline(s) implies s[j] != '\n' by {
            if j > 0 {
                assert(s.skip(1)[j - 1] == s[j]);
            }
        }
        if first_newline(s) < s.len() {
            assert(s.skip(1)[first_newline(s) - 1] == s[first_newline(s)]);
        }
    }
}

/// The newline-separated lines of `s`: each line runs to the next newline,
/// and a final newline does not open an empty last line.
pub open spec fn spec_lines(s: Seq<char>) -> Seq<Seq<char>>
    decreases s.len(),
{
    if s.len() == 0 {
        Seq::<Seq<char>>::empty()
    } else {
        let i = first_newline(s);
        if 0 <= i < s.len() {
            seq![s.subrange(0, i)] + spec_lines(s.skip(i + 1))
        } else {
            seq![s]
        }
    }
}

/// Split `s` into its newline-separated lines.
pub fn split_lines(s: &str) -> (r: Vec<String>)
    ensures
        r@.len() == spec_lines(s@).len(),
        forall|j: int| 0 <= j < r@.len() ==> r@[j]@ == #[trigger] spec_lines(s@)[j],
{
    let mut r: Vec<String> = Vec::new();
    let mut rest: String = s.to_owned();
    loop
        invariant_except_break
            spec_lines(s@) =~= r@.map_values(|x: String| x@) + spec_lines(rest@),
        ensures
            spec_lines(s@) =~= r@.map_values(|x: String| x@),
        decreases rest@.len(),
    {
        let n = rest.as_str().unicode_len();
        if n == 0 {
            proof {
                assert(spec_lines(rest@) =~= Seq::<Seq<char>>::empty());
                assert(r@.map_values(|x: String| x@) + Seq::<Seq<char>>::empty()
                    =~= r@.map_values(|x: String| x@));
            }
            break;
        }
        proof {
            lemma_first_newline_bounds(rest@);
        }
        let mut i: usize = 0;
        loop
            invariant_except_break
                n == rest@.len(),
                n > 0,
                i <= n,
                forall|j: int| 0 <= j < i ==> rest@[j] != '\n',
            ensures
                i as int == first_newline(rest@),
            decreases n - i,
        {
            if i >= n {
                proof {
                    lemma_first_newline_bounds(rest@);
                    if first_newline(rest@) < rest@.len() {
                        assert(rest@[first_newline(rest@)] != '\n');
                    }
                }
                break;
            }
            if rest.as_str().get_char(i) == '\n' {
                proof {
                    lemma_first_newline_bounds(rest@);
                    let f = first_newline(rest@);
                    if f < i {
                        assert(rest@[f] != '\n');
                    }
                    if f > i {
                        assert(rest@[i as int] != '\n');
                    }
                }
                break;
            }
            i += 1;
        }
        let line = rest.as_str().substring_char(0, i).to_owned();
        let ghost rest0 = rest@;
        let ghost r0 = r@;
        let next = if i == n {
            String::new()
        } else {
            rest.as_str().substring_char(i + 1, n).to_owned()
        };
        r.push(line);
        rest = next;
        proof {
            lemma_first_newline_bounds(rest0);
            assert(r@.map_values(|x: String| x@) =~= r0.map_values(|x: String| x@).push(
                rest0.subrange(0, first_newline(rest0)),
            ));
            if i == n {
                assert(rest0.subrange(0, first_newline(rest0)) =~= rest0);
                assert(spec_lines(rest0) =~= seq![rest0]);
                assert(rest@ =~= Seq::<char>::empty());
                assert(spec_lines(rest@) =~= Seq::<Seq<char>>::empty());
            } else {
                assert(rest@ =~= rest0.skip(i + 1));
                assert(spec_lines(rest0) =~= seq![rest0.subrange(0, i as int)] + spec_lines(
                    rest@,
                ));
            }
            assert(r0.map_values(|x: String| x@).push(rest0.subrange(0, first_newline(rest0)))
                + spec_lines(rest@) =~= r0.map_values(|x: String| x@) + spec_lines(rest0));
        }
    }
    proof {
        assert forall|j: int| 0 <= j < r@.len() implies r@[j]@ == #[trigger] spec_lines(s@)[j] by {
            assert(spec_lines(s@)[j] == r@.map_values(|x: String| x@)[j]);
        }
    }
    r
}

/// `s` with every occurrence of `c` removed.
pub open spec fn remove_char(s: Seq<char>, c: char) -> Seq<char>
    decreases s.len(),
{
    if s.len() == 0 {
        Seq::<char>::empty()
    } else if s[0] == c {
        remove_char(s.skip(1), c)
    } else {
        seq![s[0]] + remove_char(s.skip(1), c)
    }
}

/// Appending one character extends the removal result by that character
/// unless it is the removed one.
proof fn lemma_remove_char_snoc(s: Seq<char>, x: char, c: char)
    ensures
        x == c ==> remove_char(s.push(x), c) == remove_char(s, c),
        x != c ==> remove_char(s.push(x), c) == remove_char(s, c).push(x),
    decreases s.len(),
{
    if s.len() == 0 {
        assert(s =~= Seq::<char>::empty());
        assert(remove_char(s, c) =~= Seq::<char>::empty());
        assert(s.push(x).skip(1) =~= Seq::<char>::empty());
        assert(s.push(x)[0] == x);
        assert(remove_char(s.push(x).skip(1), c) =~= Seq::<char>::empty());
        if x != c {
            assert(remove_char(s.push(x), c) =~= seq![x] + Seq::<char>::empty());
            assert(seq![x] + Seq::<char>::empty() =~= remove_char(s, c).push(x));
        }
    } else {
        assert(s.push(x).skip(1) =~= s.skip(1).push(x));
        assert(s.push(x)[0] == s[0]);
        lemma_remove_char_snoc(s.skip(1), x, c);
        if x != c {
            if s[0] == c {
            } else {
                assert(seq![s[0]] + remove_char(s.skip(1), c).push(x) =~= (seq![s[0]]
                    + remove_char(s.skip(1), c)).push(x));
            }
        }
    }
}

/// Remove every occurrence of `c` from `s`.
pub fn strip_char(s: &str, c: char) -> (r: String)
    ensures
        r@ == remove_char(s@, c),
{
    let n = s.unicode_len();
    let mut r = String::new();
    let mut i: usize = 0;
    proof {
        assert(s@.subrange(0, 0) =~= Seq::<char>::empty());
    }
    while i < n
        invariant
            n == s@.len(),
            i <= n,
            r@ == remove_char(s@.subrange(0, i as int), c),
        decreases n - i,
    {
        let ch = s.get_char(i);
        proof {
            assert(s@.subrange(0, i as int + 1) =~= s@.subrange(0, i as int).push(s@[i as int]));
            lemma_remove_char_snoc(s@.subrange(0, i as int), s@[i as int], c);
        }
        if ch != c {
            push_char(&mut r, ch);
        }
        i += 1;
    }
    proof {
        assert(s@.subrange(0, n as int) =~= s@);
    }
    r
}

/// The index of the last occurrence of `c` in `s`, or minus one.
pub open spec fn last_index_of(s: Seq<char>, c: char) -> int
    decreases s.len(),
{
    if s.len() == 0 {
        -1
    } else if s[s.len() - 1] == c {
        s.len() - 1
    } else {
        last_index_of(s.drop_last(), c)
    }
}

pub proof fn lemma_last_index_of_bounds(s: Seq<char>, c: char)
    ensures
        -1 <= last_index_of(s, c) < s.len(),
        last_index_of(s, c) >= 0 ==> s[last_index_of(s, c)] == c,
        forall|j: int| last_index_of(s, c) < j < s.len() ==> s[j] != c,
    decreases s.len(),
{
    if s.len() > 0 && s[s.len() - 1] != c {
        lemma_last_index_of_bounds(s.drop_last(), c);
        assert forall|j: int| last_index_of(s, c) < j < s.len() implies s[j] != c by {
            if j < s.len() - 1 {
                assert(s.drop_last()[j] == s[j]);
            }
        }
        if last_index_of(s, c) >= 0 {
            assert(s.drop_last()[last_index_of(s, c)] == s[last_index_of(s, c)]);
        }
    }
}

/// Find the last occurrence of `c` in `s`.
pub fn find_last_char(s: &str, c: char) -> (r: Option<usize>)
    ensures
        match r {
            Some(i) => i as int == last_index_of(s@, c),
            None => last_index_of(s@, c) == -1,
        },
{
    let n = s.unicode_len();
    let mut i: usize = n;
    while i > 0
        invariant
            n == s@.len(),
            i <= n,
            forall|j: int| i <= j < n ==> s@[j] != c,
        decreases i,
    {
        if s.get_char(i - 1) == c {
            proof {
                lemma_last_index_of_bounds(s@, c);
                let ls = last_index_of(s@, c);
                if ls < i - 1 {
                    assert(s@[i - 1] != c);
                }
                if ls > i - 1 {
                    assert(s@[ls] != c);
                }
            }
            return Some(i - 1);
        }
        i -= 1;
    }
    proof {
        lemma_last_index_of_bounds(s@, c);
        if last_index_of(s@, c) >= 0 {
            assert(s@[last_index_of(s@, c)] != c);
        }
    }
    None
}

/// What `String::from_utf8_lossy` decodes a byte sequence to; the decoding
/// depends on the bytes alone, and valid UTF-8 decodes exactly.
pub uninterp spec fn lossy_of(bytes: Seq<u8>) -> Seq<char>;

/// Relies on String::from_utf8_lossy: decodes the bytes, replacing invalid
/// sequences; valid UTF-8 comes back as its exact decoding.
#[verifier::external_body]
pub fn bytes_to_text(bytes: &[u8]) -> (r: String)
    ensures
        r@ == lossy_of(bytes@),
        vstd::utf8::valid_utf8(bytes@) ==> r@ == vstd::utf8::decode_utf8(bytes@),
{
    String::from_utf8_lossy(bytes).into_owned()
}

/// Copy a list of strings.
pub fn clone_string_vec(v: &Vec<String>) -> (r: Vec<String>)
    ensures
        r@ == v@,
{
    let mut r: Vec<String> = Vec::new();
    let mut i: usize = 0;
    while i < v.len()
        invariant
            i <= v@.len(),
            r@ =~= v@.subrange(0, i as int),
        decreases v@.len() - i,
    {
        r.push(v[i].clone());
        i += 1;
    }
    proof {
        assert(v@.subrange(0, v@.len() as int) =~= v@);
    }
    r
}

/// The index of the first occurrence of `c` in `s`, or the length.
pub open spec fn first_index_of(s: Seq<char>, c: char) -> int
    decreases s.len(),
{
    if s.len() == 0 {
        0
    } else if s[0] == c {
        0
    } else {
        1 + first_index_of(s.skip(1), c)
    }
}

pub proof fn lemma_first_index_of_bounds(s: Seq<char>, c: char)
    ensures
        0 <= first_index_of(s, c) <= s.len(),
        forall|j: int| 0 <= j < first_index_of(s, c) ==> s[j] != c,
        first_index_of(s, c) < s.len() ==> s[first_index_of(s, c)] == c,
    decreases s.len(),
{
    if s.len() > 0 && s[0] != c {
        lemma_first_index_of_bounds(s.skip(1), c);
        assert forall|j: int| 0 <= j < first_index_of(s, c) implies s[j] != c by {
            if j > 0 {
                assert(s.skip(1)[j - 1] == s[j]);
            }
        }
        if first_index_of(s, c) < s.len() {
            assert(s.skip(1)[first_index_of(s, c) - 1] == s[first_index_of(s, c)]);
        }
    }
}

/// Find the first occurrence of `c` in `s`, or the length.
pub fn find_first_char(s: &str, c: char) -> (r: usize)
    ensures
        r as int == first_index_of(s@, c),
{
    let n = s.unicode_len();
    let mut i: usize = 0;
    while i < n
        invariant
            n == s@.len(),
            i <= n,
            forall|j: int| 0 <= j < i ==> s@[j] != c,
        decreases n - i,
    {
        if s.get_char(i) == c {
            proof {
                lemma_first_index_of_bounds(s@, c);
                let f = first_index_of(s@, c);
                if f < i {
                    assert(s@[f] != c);
                }
                if f > i {
                    assert(s@[i as int] != c);
                }
            }
            return i;
        }
        i += 1;
    }
    proof {
        lemma_first_index_of_bounds(s@, c);
        if first_index_of(s@, c) < s@.len() {
            assert(s@[first_index_of(s@, c)] != c);
        }
    }
    n
}

/// The `{name}` placeholders of a template, in order: at a `{` with a later
/// `}`, the non-empty text between them is collected and scanning resumes
/// after the `}`; everything else is skipped one character at a time.
pub open spec fn spec_placeholders(s: Seq<char>) -> Seq<Seq<char>>
    decreases s.len(),
{
    if s.len() == 0 {
        Seq::<Seq<char>>::empty()
    } else if s[0] == '{' {
        let j = first_index_of(s.skip(1), '}');
        if 0 <= j < s.skip(1).len() {
            let name = s.skip(1).subrange(0, j);
            if name.len() > 0 {
                seq![name] + spec_placeholders(s.skip(1).skip(j + 1))
            } else {
                spec_placeholders(s.skip(1).skip(j + 1))
            }
        } else {
            spec_placeholders(s.skip(1))
        }
    } else {
        spec_placeholders(s.skip(1))
    }
}

/// Collect the `{name}` placeholders of a header template, in order.
pub fn placeholders_in(s: &str) -> (r: Vec<String>)
    ensures
        r@.len() == spec_placeholders(s@).len(),
        forall|k: int| 0 <= k < r@.len() ==> r@[k]@ == #[trigger] spec_placeholders(s@)[k],
{
    let mut r: Vec<String> = Vec::new();
    let mut rest: String = s.to_owned();
    let ghost mut done: Seq<Seq<char>> = Seq::<Seq<char>>::empty();
    proof {
        assert(done + spec_placeholders(rest@) =~= spec_placeholders(s@));
    }
    loop
        invariant_except_break
            done + spec_placeholders(rest@) =~= spec_placeholders(s@),
            r@.len() == done.len(),
            forall|k: int| 0 <= k < r@.len() ==> r@[k]@ == #[trigger] done[k],
        ensures
            r@.len() == spec_placeholders(s@).len(),
            forall|k: int| 0 <= k < r@.len() ==> r@[k]@ == #[trigger] spec_placeholders(s@)[k],
        decreases rest@.len(),
    {
        let n = rest.as_str().unicode_len();
        if n == 0 {
            proof {
                assert(spec_placeholders(rest@) =~= Seq::<Seq<char>>::empty());
                assert(done =~= spec_placeholders(s@));
            }
            break;
        }
        let ghost rest0 = rest@;
        let c = rest.as_str().get_char(0);
        let tail = rest.as_str().substring_char(1, n).to_owned();
        proof {
            assert(tail@ =~= rest0.skip(1));
        }
        if c == '{' {
            let tail_len = tail.as_str().unicode_len();
            let j = find_first_char(tail.as_str(), '}');
            if j < tail_len {
                proof {
                    lemma_first_index_of_bounds(tail@, '}');
                }
                let name = tail.as_str().substring_char(0, j).to_owned();
                let after = tail.as_str().substring_char(j + 1, tail_len).to_owned();
                proof {
                    assert(name@ =~= rest0.skip(1).subrange(0, j as int));
                    assert(after@ =~= rest0.skip(1).skip(j as int + 1));
                }
                if j > 0 {
                    r.push(name);
                    proof {
                        done = done.push(rest0.skip(1).subrange(0, j as int));
                    }
                }
                rest = after;
            } else {
                rest = tail;
            }
        } else {
            rest = tail;
        }
        proof {
            assert(done + spec_placeholders(rest@) =~= spec_placeholders(s@));
        }
    }
    r
}

} // verus!
