//! Key sequence resolver: turns a stream of key tokens into bound actions,
//! supporting multi-key chords with timeout-based abandonment.

use vstd::prelude::*;
use vstd::string::StringExecFns;
use vstd::string::StrSliceExecFns;

verus! {

/// One configured binding: a chord (one or more key tokens written out as a
/// string) and the name of the action it triggers.
pub struct KeyMapping {
    pub keys: String,
    pub action: String,
}

/// Result of feeding one token to the resolver.
pub enum FeedOutcome {
    /// The accumulated chord matched a binding; carries the action name.
    Matched(String),
    /// The accumulated chord is a proper prefix of at least one binding.
    Prefix,
    /// The accumulated chord matches nothing; pending state was cleared.
    NoMatch,
}

/// Resolver state: the binding table, the derived chord-to-action lookup, the
/// set of proper prefixes of bound chords, the pending accumulator, and the
/// time (in milliseconds) of the last token.
pub struct KeyState {
    pub maps: Vec<KeyMapping>,
    pub lookup: Vec<(String, String)>,
    pub prefixes: Vec<String>,
    pub pending: String,
    pub last_at: Option<u64>,
}

/// The action bound to `seq`, if any: the first pair in `lookup` whose chord
/// equals `seq`.
pub open spec fn spec_lookup(lookup: Seq<(String, String)>, seq: Seq<char>) -> Option<Seq<char>>
    decreases lookup.len(),
{
    if lookup.len() == 0 {
        None
    } else if lookup[0].0@ == seq {
        Some(lookup[0].1@)
    } else {
        spec_lookup(lookup.skip(1), seq)
    }
}

/// `p` is a proper, non-empty prefix of `chord`.
pub open spec fn is_proper_prefix(p: Seq<char>, chord: Seq<char>) -> bool {
    0 < p.len() < chord.len() && chord.subrange(0, p.len() as int) == p
}

/// `seq` is a proper prefix of some bound chord.
pub open spec fn spec_is_prefix(lookup: Seq<(String, String)>, seq: Seq<char>) -> bool {
    exists|i: int| 0 <= i < lookup.len() && is_proper_prefix(seq, lookup[i].0@)
}

/// `p` is the character sequence of one of `strs`.
pub open spec fn in_strs(strs: Seq<String>, p: Seq<char>) -> bool {
    exists|j: int| 0 <= j < strs.len() && strs[j]@ == p
}

/// `p` is a proper prefix of one of the first `c` chords of `lookup`.
pub open spec fn prefix_among(lookup: Seq<(String, String)>, c: int, p: Seq<char>) -> bool {
    exists|ci: int| 0 <= ci < c && is_proper_prefix(p, lookup[ci].0@)
}

/// `p` is a cut of `chord` of some length below `k`.
pub open spec fn chord_cut(chord: Seq<char>, k: int, p: Seq<char>) -> bool {
    exists|kk: int| 1 <= kk < k && p == chord.subrange(0, kk)
}

/// A pending chord is stale when a timeout is configured and more than
/// `timeout` milliseconds passed since the last token.
pub open spec fn spec_stale(last: Option<u64>, now: u64, timeout: u64) -> bool {
    timeout > 0 && match last {
        Some(l) => l < now && now - l > timeout,
        None => false,
    }
}

/// The chord that one feed step resolves against: the pending accumulator
/// (cleared first if stale) with the new token appended.
pub open spec fn spec_feed_seq(
    pending: Seq<char>,
    last: Option<u64>,
    tok: Seq<char>,
    now: u64,
    timeout: u64,
) -> Seq<char> {
    if spec_stale(last, now, timeout) {
        tok
    } else {
        pending + tok
    }
}

impl KeyState {
    /// The lookup table holds exactly the bindings of `maps`, and the prefix
    /// table lists exactly the proper prefixes of bound chords.
    pub open spec fn wf(&self) -> bool {
        &&& self.lookup@.len() == self.maps@.len()
        &&& forall|i: int|
            0 <= i < self.maps@.len() ==> #[trigger] self.lookup@[i].0@ == self.maps@[i].keys@
                && self.lookup@[i].1@ == self.maps@[i].action@
        &&& forall|p: Seq<char>|
            #[trigger] in_strs(self.prefixes@, p) <==> spec_is_prefix(self.lookup@, p)
    }

    pub fn new() -> (r: KeyState)
        ensures
            r.wf(),
            r.maps@.len() == 0,
            r.pending@ == Seq::<char>::empty(),
            r.last_at is None,
    {
        let r = KeyState {
            maps: Vec::new(),
            lookup: Vec::new(),
            prefixes: Vec::new(),
            pending: String::new(),
            last_at: None,
        };
        proof {
            assert forall|p: Seq<char>| #[trigger] in_strs(r.prefixes@, p)
                <==> spec_is_prefix(r.lookup@, p) by {}
        }
        r
    }

    /// Rebuild the lookup and prefix tables from `maps`. Rebuilding is
    /// idempotent and leaves the pending accumulator and timestamp alone.
    pub fn rebuild(&mut self)
        ensures
            final(self).wf(),
            final(self).maps == old(self).maps,
            final(self).pending == old(self).pending,
            final(self).last_at == old(self).last_at,
    {
        let mut lookup: Vec<(String, String)> = Vec::new();
        let mut i: usize = 0;
        while i < self.maps.len()
            invariant
                i <= self.maps@.len(),
                lookup@.len() == i,
                forall|k: int|
                    0 <= k < i ==> #[trigger] lookup@[k].0@ == self.maps@[k].keys@
                        && lookup@[k].1@ == self.maps@[k].action@,
            decreases self.maps@.len() - i,
        {
            lookup.push((self.maps[i].keys.clone(), self.maps[i].action.clone()));
            i += 1;
        }

        let mut prefixes: Vec<String> = Vec::new();
        let mut c: usize = 0;
        while c < lookup.len()
            invariant
                c <= lookup@.len(),
                forall|p: Seq<char>|
                    #[trigger] in_strs(prefixes@, p) <==> prefix_among(lookup@, c as int, p),
            decreases lookup@.len() - c,
        {
            let chord = &lookup[c].0;
            let chord_len = chord.as_str().unicode_len();
            let mut k: usize = 1;
            while k < chord_len
                invariant
                    1 <= k,
                    chord_len == chord@.len(),
                    chord == lookup@[c as int].0,
                    c < lookup@.len(),
                    k <= chord_len || k == 1,
                    forall|p: Seq<char>|
                        #[trigger] in_strs(prefixes@, p) <==> prefix_among(lookup@, c as int, p)
                            || chord_cut(chord@, k as int, p),
                decreases chord_len - k,
            {
                let pre = chord.as_str().substring_char(0, k).to_owned();
                let ghost pre0 = pre;
                let ghost pres0 = prefixes@;
                prefixes.push(pre);
                proof {
                    assert(prefixes@ == pres0.push(pre0));
                    assert forall|p: Seq<char>|
                        #[trigger] in_strs(prefixes@, p) <==> prefix_among(lookup@, c as int, p)
                            || chord_cut(chord@, k as int + 1, p) by {
                        lemma_in_strs_push(pres0, pre0, p);
                        lemma_chord_cut_step(chord@, k as int, p);
                    }
                }
                k += 1;
            }
            proof {
                assert forall|p: Seq<char>|
                    #[trigger] in_strs(prefixes@, p)
                        <==> prefix_among(lookup@, c as int + 1, p) by {
                    if in_strs(prefixes@, p) {
                        if chord_cut(chord@, k as int, p) {
                            let kk = choose|kk: int|
                                1 <= kk < k && p == chord@.subrange(0, kk);
                            assert(p.len() == kk);
                            assert(is_proper_prefix(p, lookup@[c as int].0@));
                            assert(prefix_among(lookup@, c as int + 1, p));
                        } else {
                            let ci = choose|ci: int|
                                0 <= ci < c && is_proper_prefix(p, lookup@[ci].0@);
                            assert(prefix_among(lookup@, c as int + 1, p));
                        }
                    }
                    if prefix_among(lookup@, c as int + 1, p) {
                        let ci = choose|ci: int|
                            0 <= ci < c as int + 1 && is_proper_prefix(p, lookup@[ci].0@);
                        if ci == c as int {
                            let kk = p.len() as int;
                            assert(p == chord@.subrange(0, kk));
                            assert(k as int >= chord@.len());
                            assert(chord_cut(chord@, k as int, p));
                        } else {
                            assert(prefix_among(lookup@, c as int, p));
                        }
                        assert(in_strs(prefixes@, p));
                    }
                }
            }
            c += 1;
        }
        proof {
            assert forall|p: Seq<char>|
                #[trigger] in_strs(prefixes@, p) <==> spec_is_prefix(lookup@, p) by {
                assert(in_strs(prefixes@, p) <==> prefix_among(lookup@, lookup@.len() as int, p));
            }
        }
        self.lookup = lookup;
        self.prefixes = prefixes;
    }
}

/// Membership in a string table grows by exactly the pushed element.
pub proof fn lemma_in_strs_push(strs: Seq<String>, x: String, p: Seq<char>)
    ensures
        in_strs(strs.push(x), p) <==> in_strs(strs, p) || p == x@,
{
    if in_strs(strs.push(x), p) {
        let j = choose|j: int| 0 <= j < strs.push(x).len() && strs.push(x)[j]@ == p;
        if j < strs.len() {
            assert(strs[j]@ == p);
        }
    }
    if in_strs(strs, p) {
        let j = choose|j: int| 0 <= j < strs.len() && strs[j]@ == p;
        assert(strs.push(x)[j]@ == p);
    }
    if p == x@ {
        assert(strs.push(x)[strs.len() as int]@ == p);
    }
}

/// The cuts of a chord below `k + 1` are those below `k` plus the cut at `k`.
pub proof fn lemma_chord_cut_step(chord: Seq<char>, k: int, p: Seq<char>)
    requires
        1 <= k,
    ensures
        chord_cut(chord, k + 1, p) <==> chord_cut(chord, k, p) || p == chord.subrange(0, k),
{
    if chord_cut(chord, k + 1, p) {
        let kk = choose|kk: int| 1 <= kk < k + 1 && p == chord.subrange(0, kk);
        if kk < k {
            assert(chord_cut(chord, k, p));
        }
    }
    if chord_cut(chord, k, p) {
        let kk = choose|kk: int| 1 <= kk < k && p == chord.subrange(0, kk);
        assert(1 <= kk < k + 1 && p == chord.subrange(0, kk));
    }
    if p == chord.subrange(0, k) {
        assert(1 <= k < k + 1 && p == chord.subrange(0, k));
    }
}

/// Find the action bound to `seq` in the lookup table.
pub fn lookup_action(lookup: &Vec<(String, String)>, seq: &String) -> (r: Option<String>)
    ensures
        match r {
            Some(a) => spec_lookup(lookup@, seq@) == Some(a@),
            None => spec_lookup(lookup@, seq@) is None,
        },
{
    proof {
        assert(lookup@.skip(0) =~= lookup@);
    }
    let mut i: usize = 0;
    while i < lookup.len()
        invariant
            i <= lookup@.len(),
            spec_lookup(lookup@, seq@) == spec_lookup(lookup@.skip(i as int), seq@),
        decreases lookup@.len() - i,
    {
        proof {
            assert(lookup@.skip(i as int)[0] == lookup@[i as int]);
            assert(lookup@.skip(i as int).skip(1) =~= lookup@.skip(i as int + 1));
        }
        if lookup[i].0 == *seq {
            return Some(lookup[i].1.clone());
        }
        i += 1;
    }
    None
}

/// Whether `seq` is listed in `strs`.
pub fn contains_string(strs: &Vec<String>, seq: &String) -> (r: bool)
    ensures
        r == in_strs(strs@, seq@),
{
    let mut i: usize = 0;
    while i < strs.len()
        invariant
            i <= strs@.len(),
            forall|j: int| 0 <= j < i ==> strs@[j]@ != seq@,
        decreases strs@.len() - i,
    {
        if strs[i] == *seq {
            return true;
        }
        i += 1;
    }
    false
}

/// Feed one key token. If the pending chord is stale it is abandoned first.
/// The token is appended; an exact match resolves and clears the accumulator,
/// a proper prefix of a bound chord is retained, and anything else clears the
/// accumulator and reports `NoMatch`.
pub fn feed(st: &mut KeyState, tok: &str, now_ms: u64, timeout_ms: u64) -> (r: FeedOutcome)
    requires
        old(st).wf(),
    ensures
        final(st).wf(),
        final(st).maps == old(st).maps,
        final(st).lookup == old(st).lookup,
        final(st).prefixes == old(st).prefixes,
        final(st).last_at == Some(now_ms),
        ({
            let seq = spec_feed_seq(old(st).pending@, old(st).last_at, tok@, now_ms, timeout_ms);
            match r {
                FeedOutcome::Matched(a) => spec_lookup(final(st).lookup@, seq) == Some(a@)
                    && final(st).pending@ == Seq::<char>::empty(),
                FeedOutcome::Prefix => spec_lookup(final(st).lookup@, seq) is None
                    && spec_is_prefix(final(st).lookup@, seq) && final(st).pending@ == seq,
                FeedOutcome::NoMatch => spec_lookup(final(st).lookup@, seq) is None
                    && !spec_is_prefix(final(st).lookup@, seq)
                    && final(st).pending@ == Seq::<char>::empty(),
            }
        }),
{
    if timeout_ms > 0 {
        if let Some(last) = st.last_at {
            if last < now_ms && now_ms - last > timeout_ms {
                st.pending = String::new();
            }
        }
    }
    st.last_at = Some(now_ms);
    st.pending.append(tok);
    let seq = st.pending.clone();
    if let Some(action) = lookup_action(&st.lookup, &seq) {
        st.pending = String::new();
        FeedOutcome::Matched(action)
    } else if contains_string(&st.prefixes, &seq) {
        FeedOutcome::Prefix
    } else {
        st.pending = String::new();
        FeedOutcome::NoMatch
    }
}

/// If a binding for `seq` exists, some table entry carries it.
pub proof fn lemma_lookup_some_exists(lookup: Seq<(String, String)>, seq: Seq<char>)
    requires
        spec_lookup(lookup, seq) is Some,
    ensures
        exists|i: int|
            0 <= i < lookup.len() && lookup[i].0@ == seq
                && Some(#[trigger] lookup[i].1@) == spec_lookup(lookup, seq),
    decreases lookup.len(),
{
    if lookup.len() > 0 {
        if lookup[0].0@ == seq {
            assert(lookup[0].1@ == spec_lookup(lookup, seq)->Some_0);
        } else {
            lemma_lookup_some_exists(lookup.skip(1), seq);
            let i = choose|i: int|
                0 <= i < lookup.skip(1).len() && lookup.skip(1)[i].0@ == seq
                    && Some(#[trigger] lookup.skip(1)[i].1@) == spec_lookup(lookup.skip(1), seq);
            assert(lookup[i + 1] == lookup.skip(1)[i]);
        }
    }
}

/// Law: for a bound chord `t1 + t2` whose first token is not itself bound,
/// feeding `t1` from a clean accumulator resolves to `Prefix` (the token is
/// retained), and feeding `t2` within the timeout resolves the full chord to
/// its action. Together with `feed`'s contract this pins both outcomes.
pub proof fn lemma_chord_within_timeout(
    lookup: Seq<(String, String)>,
    t1: Seq<char>,
    t2: Seq<char>,
    a: Seq<char>,
    n0: Option<u64>,
    n1: u64,
    n2: u64,
    timeout: u64,
)
    requires
        spec_lookup(lookup, t1 + t2) == Some(a),
        spec_lookup(lookup, t1) is None,
        t1.len() > 0,
        t2.len() > 0,
        n1 <= n2,
        n2 - n1 <= timeout,
    ensures
        spec_feed_seq(Seq::<char>::empty(), n0, t1, n1, timeout) == t1,
        spec_is_prefix(lookup, t1),
        !spec_stale(Some(n1), n2, timeout),
        spec_feed_seq(t1, Some(n1), t2, n2, timeout) == t1 + t2,
{
    assert(Seq::<char>::empty() + t1 =~= t1);
    lemma_lookup_some_exists(lookup, t1 + t2);
    let i = choose|i: int|
        0 <= i < lookup.len() && lookup[i].0@ == t1 + t2
            && Some(#[trigger] lookup[i].1@) == spec_lookup(lookup, t1 + t2);
    assert((t1 + t2).subrange(0, t1.len() as int) =~= t1);
    assert(is_proper_prefix(t1, lookup[i].0@));
}

/// Law: after the timeout has passed, the stale accumulator is abandoned, so
/// the chord a feed resolves against equals the one resolved from a clean
/// state: the outcome is that of feeding the token alone.
pub proof fn lemma_chord_after_timeout(
    pending: Seq<char>,
    n1: u64,
    t2: Seq<char>,
    n2: u64,
    timeout: u64,
)
    requires
        timeout > 0,
        n1 < n2,
        n2 - n1 > timeout,
    ensures
        spec_feed_seq(pending, Some(n1), t2, n2, timeout)
            == spec_feed_seq(Seq::<char>::empty(), None, t2, n2, timeout),
{
    assert(Seq::<char>::empty() + t2 =~= t2);
}

/// Law: a token that is neither bound nor part of any bound prefix yields
/// `NoMatch` from a clean state, and `feed`'s contract then guarantees the
/// accumulator is cleared: subsequent input starts fresh.
pub proof fn lemma_unbound_token(
    lookup: Seq<(String, String)>,
    t: Seq<char>,
    n0: Option<u64>,
    n1: u64,
    timeout: u64,
)
    requires
        spec_lookup(lookup, t) is None,
        !spec_is_prefix(lookup, t),
    ensures
        spec_lookup(lookup, spec_feed_seq(Seq::<char>::empty(), n0, t, n1, timeout)) is None,
        !spec_is_prefix(lookup, spec_feed_seq(Seq::<char>::empty(), n0, t, n1, timeout)),
{
    assert(Seq::<char>::empty() + t =~= t);
}

} // verus!
