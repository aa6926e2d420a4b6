//! Array-of-bytes signatures: parsing a textual pattern such as
//! `"48 8B 05 ?? ?? ?? ??"` and finding where it matches in a buffer.

use vstd::prelude::*;
use crate::numbers::{IntErrorKind, accumulate, digit_value, parse_int, parse_int_spec};
use crate::region::{RESULT_CAP, SCAN_CHUNK_SIZE};
use crate::text::{
    chars_equal_str, chars_of, is_white_space, join_ws, lemma_split_join, push_chars, push_str,
    split_whitespace, split_ws,
};
use crate::walk::{fresh, RegionWalk, WalkMode, WalkStage, WalkStep};

verus! {

/// One element of a pattern: a byte that must be present, or a wildcard that
/// accepts any byte.
#[derive(Debug, Clone, Copy, PartialEq, Eq, Structural)]
pub enum PatternByte {
    Byte(u8),
    Wildcard,
}

impl View for PatternByte {
    type V = Option<u8>;

    open spec fn view(&self) -> Option<u8> {
        match self {
            PatternByte::Byte(b) => Some(*b),
            PatternByte::Wildcard => None,
        }
    }
}

/// The pattern `pat` accepts the byte `b` at one position.
pub open spec fn accepts(pat: Option<u8>, b: u8) -> bool {
    pat matches Some(x) ==> x == b
}

/// The pattern `pat` matches `buf` starting at offset `i`.
pub open spec fn matches_at(pat: Seq<Option<u8>>, buf: Seq<u8>, i: int) -> bool {
    &&& 0 <= i
    &&& i + pat.len() <= buf.len()
    &&& forall|j: int| 0 <= j < pat.len() ==> accepts(#[trigger] pat[j], buf[i + j])
}

/// Every offset of `buf`, from `from` on and in increasing order, at which
/// `pat` matches.
pub open spec fn match_positions(pat: Seq<Option<u8>>, buf: Seq<u8>, from: int) -> Seq<int>
    decreases buf.len() - from,
{
    if from < 0 || from >= buf.len() {
        seq![]
    } else if matches_at(pat, buf, from) {
        seq![from] + match_positions(pat, buf, from + 1)
    } else {
        match_positions(pat, buf, from + 1)
    }
}

/// The addresses of all matches of `pat` in a buffer read from `base`.
pub open spec fn match_addresses(pat: Seq<Option<u8>>, buf: Seq<u8>, base: int) -> Seq<usize> {
    match_positions(pat, buf, 0).map_values(|p: int| (base + p) as usize)
}

/// What a scan with a limit of `cap` results leaves in a result list that
/// held `before`: the matches are appended in order until the list is full.
pub open spec fn capped_append(before: Seq<usize>, found: Seq<usize>, cap: int) -> Seq<usize> {
    if before.len() + found.len() <= cap {
        before + found
    } else {
        before + found.take(cap - before.len())
    }
}

/// The text of the error for a token that is no byte.
pub open spec fn invalid_byte_message(token: Seq<char>, e: IntErrorKind) -> Seq<char> {
    "Invalid byte in pattern: "@ + token + ". Error: "@ + e.spec_message()
}

/// The meaning of one token: `??` or `?` is a wildcard, anything else must
/// be a hexadecimal byte as `u8::from_str_radix(token, 16)` reads it.
pub open spec fn token_value(token: Seq<char>) -> Result<Option<u8>, IntErrorKind> {
    if token == "??"@ || token == "?"@ {
        Ok(None)
    } else {
        match parse_int_spec(token, 16, 0, 255, false) {
            Ok(v) => Ok(Some(v as u8)),
            Err(e) => Err(e),
        }
    }
}

/// The pattern that a list of tokens describes, or the message for its
/// first token that is no byte.
pub open spec fn parse_tokens(tokens: Seq<Seq<char>>) -> Result<Seq<Option<u8>>, Seq<char>>
    decreases tokens.len(),
{
    if tokens.len() == 0 {
        Ok(seq![])
    } else {
        match token_value(tokens[0]) {
            Err(e) => Err(invalid_byte_message(tokens[0], e)),
            Ok(b) => match parse_tokens(tokens.drop_first()) {
                Ok(rest) => Ok(seq![b] + rest),
                Err(m) => Err(m),
            },
        }
    }
}

/// The pattern that the text `s` describes, or the error message that
/// `AOBScanner::new` gives for it.
pub open spec fn parse_pattern_spec(s: Seq<char>) -> Result<Seq<Option<u8>>, Seq<char>> {
    match parse_tokens(split_ws(s)) {
        Ok(p) => if p.len() == 0 {
            Err("Pattern cannot be empty"@)
        } else {
            Ok(p)
        },
        Err(m) => Err(m),
    }
}

/// A signature-based scanner for finding addresses in memory.
/// Supports wildcards in the pattern (e.g. "48 8B 05 ?? ?? ?? ??").
pub struct AOBScanner {
    pattern: Vec<PatternByte>,
}

impl View for AOBScanner {
    type V = Seq<Option<u8>>;

    closed spec fn view(&self) -> Seq<Option<u8>> {
        self.pattern@.map_values(|p: PatternByte| p@)
    }
}

impl AOBScanner {
    #[verifier::type_invariant]
    closed spec fn wf(self) -> bool {
        self.pattern.len() > 0
    }

    /// The number of bytes that the pattern spans.
    pub fn len(&self) -> (n: usize)
        ensures
            n == self@.len(),
            n > 0,
    {
        proof {
            use_type_invariant(self);
        }
        self.pattern.len()
    }

    /// A scanner that looks for exactly the bytes of `bytes`.
    pub fn from_bytes(bytes: &[u8]) -> (r: Self)
        requires
            bytes@.len() > 0,
        ensures
            r@ == bytes@.map_values(|b: u8| Some(b)),
    {
        let mut pattern: Vec<PatternByte> = Vec::new();
        let n = bytes.len();
        for i in 0..n
            invariant
                n == bytes@.len(),
                pattern@.len() == i,
                forall|k: int| 0 <= k < i ==> (#[trigger] pattern@[k])@ == Some(bytes@[k]),
        {
            pattern.push(PatternByte::Byte(bytes[i]));
        }
        let r = AOBScanner { pattern };
        assert(r@ =~= bytes@.map_values(|b: u8| Some(b)));
        r
    }

    /// Parses a string pattern like "48 8B 05 ?? ?? ?? ??" into an AOBScanner.
    pub fn new(pattern_str: &str) -> (r: Result<Self, String>)
        ensures
            r matches Ok(sc) ==> parse_pattern_spec(pattern_str@) == Ok::<
                Seq<Option<u8>>,
                Seq<char>,
            >(sc@),
            r matches Err(m) ==> parse_pattern_spec(pattern_str@) == Err::<
                Seq<Option<u8>>,
                Seq<char>,
            >(m@),
    {
        let chars = chars_of(pattern_str);
        let tokens = split_whitespace(&chars);
        let ghost toks = split_ws(pattern_str@);
        let mut pattern: Vec<PatternByte> = Vec::new();
        let n = tokens.len();
        assert(toks.skip(0) =~= toks);
        for i in 0..n
            invariant
                n == tokens.len(),
                toks == tokens.deep_view(),
                toks == split_ws(pattern_str@),
                toks.len() == n,
                parse_tokens(toks) == (match parse_tokens(toks.skip(i as int)) {
                    Ok(rest) => Ok(pattern@.map_values(|p: PatternByte| p@) + rest),
                    Err(m) => Err(m),
                }),
        {
            let token = &tokens[i];
            proof {
                assert(token@ == toks[i as int]);
                assert(toks.skip(i as int)[0] == toks[i as int]);
                assert(toks.skip(i as int).drop_first() =~= toks.skip(i + 1));
            }
            let value: Option<u8>;
            if chars_equal_str(token, "??") || chars_equal_str(token, "?") {
                value = None;
            } else {
                match parse_int(token, 16, 0, 255, false) {
                    Ok(v) => {
                        value = Some(v as u8);
                    },
                    Err(e) => {
                        let mut msg = String::from_str("Invalid byte in pattern: ");
                        push_chars(&mut msg, token);
                        push_str(&mut msg, ". Error: ");
                        let em = e.message();
                        push_str(&mut msg, em.as_str());
                        proof {
                            assert(token_value(toks[i as int]) == Err::<Option<u8>, IntErrorKind>(
                                e,
                            ));
                            assert(parse_tokens(toks.skip(i as int)) == Err::<
                                Seq<Option<u8>>,
                                Seq<char>,
                            >(invalid_byte_message(toks[i as int], e)));
                            assert(msg@ =~= invalid_byte_message(toks[i as int], e));
                            assert(parse_tokens(toks) == Err::<Seq<Option<u8>>, Seq<char>>(msg@));
                            assert(parse_pattern_spec(pattern_str@) == Err::<
                                Seq<Option<u8>>,
                                Seq<char>,
                            >(msg@));
                        }
                        return Err(msg);
                    },
                }
            }
            assert(token_value(toks[i as int]) == Ok::<Option<u8>, IntErrorKind>(value));
            let ghost before = pattern@.map_values(|p: PatternByte| p@);
            match value {
                Some(b) => pattern.push(PatternByte::Byte(b)),
                None => pattern.push(PatternByte::Wildcard),
            }
            assert(pattern@.map_values(|p: PatternByte| p@) =~= before.push(value));
            proof {
                let rest = toks.skip(i + 1);
                match parse_tokens(rest) {
                    Ok(r) => {
                        assert(before + (seq![value] + r) =~= before.push(value) + r);
                    },
                    Err(_) => {},
                }
            }
        }
        assert(toks.skip(n as int) =~= Seq::<Seq<char>>::empty());
        assert(pattern@.map_values(|p: PatternByte| p@) + Seq::<Option<u8>>::empty()
            =~= pattern@.map_values(|p: PatternByte| p@));
        if pattern.len() == 0 {
            return Err(String::from_str("Pattern cannot be empty"));
        }
        Ok(Self { pattern })
    }

    /// Whether the pattern matches `buffer` at offset `i`.
    fn matches_here(&self, buffer: &[u8], i: usize) -> (r: bool)
        requires
            i + self@.len() <= buffer.len(),
        ensures
            r == matches_at(self@, buffer@, i as int),
    {
        let n = self.pattern.len();
        let mut j: usize = 0;
        while j < n
            invariant
                n == self@.len(),
                i + n <= buffer.len(),
                j <= n,
                forall|k: int| 0 <= k < j ==> accepts(#[trigger] self@[k], buffer@[i + k]),
            decreases n - j,
        {
            match self.pattern[j] {
                PatternByte::Wildcard => {},
                PatternByte::Byte(b) => {
                    if buffer[i + j] != b {
                        assert(!accepts(self@[j as int], buffer@[i + j]));
                        return false;
                    }
                },
            }
            j = j + 1;
        }
        true
    }

    /// The first offset at or after `start` at which the pattern matches.
    pub fn find_from(&self, buffer: &[u8], start: usize) -> (r: Option<usize>)
        ensures
            r matches Some(i) ==> start <= i && matches_at(self@, buffer@, i as int) && forall|
                k: int,
            |
                start <= k < i ==> !matches_at(self@, buffer@, k),
            r is None ==> forall|k: int| start <= k ==> !matches_at(self@, buffer@, k),
    {
        proof {
            use_type_invariant(self);
        }
        let n = self.pattern.len();
        if buffer.len() < n {
            return None;
        }
        let first_byte = match self.pattern[0] {
            PatternByte::Byte(fb) => Some(fb),
            PatternByte::Wildcard => None,
        };
        let limit = buffer.len() - n;
        let mut i: usize = start;
        while i <= limit
            invariant
                n == self@.len(),
                n > 0,
                limit + n == buffer.len(),
                start <= i,
                first_byte == self@[0],
                forall|k: int| start <= k < i ==> !matches_at(self@, buffer@, k),
            decreases limit + 1 - i,
        {
            let skip = match first_byte {
                Some(fb) => buffer[i] != fb,
                None => false,
            };
            if skip {
                assert(!accepts(self@[0], buffer@[i as int + 0]));
            } else if self.matches_here(buffer, i) {
                return Some(i);
            }
            i = i + 1;
        }
        None
    }

    /// Scans a buffer for the pattern. Returns the relative offset if found.
    pub fn find_in_buffer(&self, buffer: &[u8]) -> (r: Option<usize>)
        ensures
            r matches Some(i) ==> matches_at(self@, buffer@, i as int) && forall|k: int|
                0 <= k < i ==> !matches_at(self@, buffer@, k),
            r is None ==> forall|k: int| !matches_at(self@, buffer@, k),
    {
        let r = self.find_from(buffer, 0);
        assert(forall|k: int| k < 0 ==> !matches_at(self@, buffer@, k));
        r
    }

    /// The walk that scans a whole process for this pattern, up to
    /// `RESULT_CAP` matches, and its first step. A scan of the engine's own
    /// process (`own_process`) is refused: it is over at once, empty.
    pub fn scan_process(self, own_process: bool) -> (r: (RegionWalk, WalkStep))
        ensures
            r.0.wf(),
            own_process ==> r.0@.results.len() == 0 && r.0@.stage == WalkStage::Done && r.1
                == WalkStep::Done,
            !own_process ==> fresh(
                r.0@,
                WalkMode::Pattern,
                self@,
                RESULT_CAP as nat,
                SCAN_CHUNK_SIZE as nat,
            ) && r.1 == WalkStep::Query(0),
    {
        RegionWalk::pattern(self, own_process)
    }

    /// Appends to `results` the address of every match of the pattern in a
    /// chunk of memory read from `chunk_address`, in increasing order, and
    /// stops once `results` holds `cap` entries. Returns whether it stopped
    /// there.
    pub fn collect_matches(
        &self,
        chunk: &[u8],
        chunk_address: usize,
        results: &mut Vec<usize>,
        cap: usize,
    ) -> (cap_reached: bool)
        requires
            old(results)@.len() < cap,
            chunk_address + chunk@.len() <= usize::MAX,
        ensures
            final(results)@ == capped_append(
                old(results)@,
                match_addresses(self@, chunk@, chunk_address as int),
                cap as int,
            ),
            cap_reached == (final(results)@.len() >= cap),
    {
        proof {
            use_type_invariant(self);
        }
        let ghost pat = self@;
        let ghost m = match_positions(pat, chunk@, 0);
        let ghost found = match_addresses(pat, chunk@, chunk_address as int);
        let ghost before = results@;
        let ghost mut t: int = 0;
        let len = chunk.len();
        if len == 0 {
            assert(found =~= Seq::<usize>::empty());
            assert(before + found =~= before);
            return false;
        }
        let mut find_offset: usize = 0;
        proof {
            lemma_match_positions_facts(pat, chunk@, 0);
        }
        loop
            invariant
                pat == self@,
                pat.len() > 0,
                len == chunk@.len(),
                chunk_address + len <= usize::MAX,
                find_offset < len,
                0 <= t <= m.len(),
                m == match_positions(pat, chunk@, 0),
                found.len() == m.len(),
                found == match_addresses(self@, chunk@, chunk_address as int),
                before == old(results)@,
                forall|q: int| 0 <= q < m.len() ==> #[trigger] found[q] == (chunk_address + m[q]) as usize,
                m.subrange(t, m.len() as int) == match_positions(pat, chunk@, find_offset as int),
                results@ == before + found.take(t),
                results@.len() < cap,
                before.len() < cap,
                forall|q: int| 0 <= q < m.len() ==> 0 <= #[trigger] m[q] < len,
            decreases len - find_offset,
        {
            match self.find_from(chunk, find_offset) {
                None => {
                    proof {
                        lemma_no_match_from(pat, chunk@, find_offset as int);
                        assert(t == m.len());
                        assert(found.take(t) =~= found);
                    }
                    return false;
                },
                Some(idx) => {
                    proof {
                        lemma_skip_non_matches(pat, chunk@, find_offset as int, idx as int);
                        assert(m.subrange(t, m.len() as int).len() > 0);
                        assert(m.subrange(t, m.len() as int)[0] == idx);
                        assert(m[t] == idx);
                        assert(found[t] == (chunk_address + idx) as usize);
                    }
                    results.push(chunk_address + idx);
                    proof {
                        assert(found.take(t + 1) =~= found.take(t).push(found[t]));
                        assert(m.subrange(t + 1, m.len() as int) =~= m.subrange(
                            t,
                            m.len() as int,
                        ).drop_first());
                        t = t + 1;
                    }
                    if results.len() >= cap {
                        proof {
                            assert(results@.len() == cap);
                            assert(before.len() + t == cap);
                            if before.len() + found.len() <= cap {
                                assert(found.take(t) =~= found);
                            }
                        }
                        return true;
                    }
                    find_offset = idx + 1;
                    if find_offset >= len {
                        proof {
                            assert(match_positions(pat, chunk@, find_offset as int)
                                =~= Seq::<int>::empty());
                            assert(t == m.len());
                            assert(found.take(t) =~= found);
                        }
                        return false;
                    }
                },
            }
        }
    }
}

/// The positions found from `from` on are offsets of the buffer.
proof fn lemma_match_positions_facts(pat: Seq<Option<u8>>, buf: Seq<u8>, from: int)
    requires
        0 <= from,
    ensures
        forall|q: int|
            0 <= q < match_positions(pat, buf, from).len() ==> from <= #[trigger] match_positions(
                pat,
                buf,
                from,
            )[q] < buf.len(),
    decreases buf.len() - from,
{
    if from < buf.len() {
        lemma_match_positions_facts(pat, buf, from + 1);
        let rest = match_positions(pat, buf, from + 1);
        if matches_at(pat, buf, from) {
            let all = seq![from] + rest;
            assert forall|q: int| 0 <= q < all.len() implies from <= #[trigger] all[q] < buf.len() by {
                if q > 0 {
                    assert(all[q] == rest[q - 1]);
                }
            }
        }
    }
}

/// With no match at or after `from`, nothing is found from there.
proof fn lemma_no_match_from(pat: Seq<Option<u8>>, buf: Seq<u8>, from: int)
    requires
        0 <= from,
        forall|k: int| from <= k ==> !matches_at(pat, buf, k),
    ensures
        match_positions(pat, buf, from) == Seq::<int>::empty(),
    decreases buf.len() - from,
{
    if from < buf.len() {
        lemma_no_match_from(pat, buf, from + 1);
    }
}

/// Skipping offsets with no match up to a match at `p`: the positions found
/// from `from` begin with `p`.
proof fn lemma_skip_non_matches(pat: Seq<Option<u8>>, buf: Seq<u8>, from: int, p: int)
    requires
        0 <= from <= p,
        pat.len() > 0,
        matches_at(pat, buf, p),
        forall|k: int| from <= k < p ==> !matches_at(pat, buf, k),
    ensures
        match_positions(pat, buf, from) == seq![p] + match_positions(pat, buf, p + 1),
    decreases p - from,
{
    if from < p {
        lemma_skip_non_matches(pat, buf, from + 1, p);
    }
}

/// Every reported position is a match, the positions increase strictly, and
/// every match at or after `from` is reported: the scan finds exactly the
/// matches, each once and in order.
pub proof fn lemma_match_positions_exact(pat: Seq<Option<u8>>, buf: Seq<u8>, from: int)
    requires
        0 <= from,
        pat.len() > 0,
    ensures
        forall|q: int|
            0 <= q < match_positions(pat, buf, from).len() ==> matches_at(
                pat,
                buf,
                #[trigger] match_positions(pat, buf, from)[q],
            ),
        forall|q: int, r: int|
            0 <= q < r < match_positions(pat, buf, from).len() ==> #[trigger] match_positions(
                pat,
                buf,
                from,
            )[q] < #[trigger] match_positions(pat, buf, from)[r],
        forall|k: int|
            from <= k && matches_at(pat, buf, k) ==> match_positions(pat, buf, from).contains(k),
    decreases buf.len() - from,
{
    if from < buf.len() {
        lemma_match_positions_exact(pat, buf, from + 1);
        lemma_match_positions_facts(pat, buf, from + 1);
        let rest = match_positions(pat, buf, from + 1);
        if matches_at(pat, buf, from) {
            let all = seq![from] + rest;
            assert forall|k: int| from <= k && matches_at(pat, buf, k) implies all.contains(k) by {
                if k == from {
                    assert(all[0] == from);
                } else {
                    let q = choose|q: int| 0 <= q < rest.len() && rest[q] == k;
                    assert(all[q + 1] == k);
                }
            }
            assert forall|q: int, r: int| 0 <= q < r < all.len() implies #[trigger] all[q]
                < #[trigger] all[r] by {
                if q > 0 {
                    assert(all[q] == rest[q - 1]);
                }
                assert(all[r] == rest[r - 1]);
            }
        }
    } else {
        assert forall|k: int| from <= k && matches_at(pat, buf, k) implies match_positions(
            pat,
            buf,
            from,
        ).contains(k) by {}
    }
}

/// A capped scan never leaves more than `cap` results, keeps what was
/// there before, and appends the matches in order.
pub proof fn lemma_capped_append_bounds(before: Seq<usize>, found: Seq<usize>, cap: int)
    requires
        before.len() <= cap,
    ensures
        capped_append(before, found, cap).len() <= cap,
        capped_append(before, found, cap).len() >= before.len(),
        capped_append(before, found, cap).take(before.len() as int) == before,
        forall|k: int|
            before.len() <= k < capped_append(before, found, cap).len() ==> #[trigger] capped_append(
                before,
                found,
                cap,
            )[k] == found[k - before.len()],
{
    let r = capped_append(before, found, cap);
    assert(r.take(before.len() as int) =~= before);
}


/// A token is a wildcard `??` or two hexadecimal digits.
pub open spec fn simple_token(t: Seq<char>) -> bool {
    ||| t == seq!['?', '?']
    ||| t.len() == 2 && digit_value(t[0], 16) is Some && digit_value(t[1], 16) is Some
}

proof fn lemma_simple_token_value(t: Seq<char>)
    requires
        simple_token(t),
    ensures
        token_value(t) is Ok,
        t.len() > 0,
        forall|j: int| 0 <= j < t.len() ==> !is_white_space(#[trigger] t[j]),
{
    reveal_strlit("??");
    reveal_strlit("?");
    if t == seq!['?', '?'] {
        assert(t =~= "??"@);
    } else {
        assert(t != "??"@ && t != "?"@) by {
            assert("??"@[0] == '?');
            assert(digit_value('?', 16) is None);
        }
        let d0 = digit_value(t[0], 16).unwrap();
        let d1 = digit_value(t[1], 16).unwrap();
        assert(t[0] != '+' && t[0] != '-');
        assert(t.drop_first().drop_first() =~= Seq::<char>::empty());
        assert(accumulate(t.drop_first(), 16, d0 as int, 0, 255, false) == accumulate(
            t.drop_first().drop_first(),
            16,
            (d0 * 16 + d1) as int,
            0,
            255,
            false,
        ));
    }
}

proof fn lemma_parse_simple_tokens(toks: Seq<Seq<char>>)
    requires
        forall|i: int| 0 <= i < toks.len() ==> simple_token(#[trigger] toks[i]),
    ensures
        parse_tokens(toks) matches Ok(p) && p.len() == toks.len(),
    decreases toks.len(),
{
    if toks.len() > 0 {
        lemma_simple_token_value(toks[0]);
        assert forall|i: int| 0 <= i < toks.drop_first().len() implies simple_token(
            #[trigger] toks.drop_first()[i],
        ) by {
            assert(toks.drop_first()[i] == toks[i + 1]);
        }
        lemma_parse_simple_tokens(toks.drop_first());
    }
}

/// A pattern written as wildcards `??` and two-digit hexadecimal bytes
/// separated by single spaces parses.
pub proof fn lemma_simple_pattern_parses(toks: Seq<Seq<char>>)
    requires
        toks.len() > 0,
        forall|i: int| 0 <= i < toks.len() ==> simple_token(#[trigger] toks[i]),
    ensures
        parse_pattern_spec(join_ws(toks)) is Ok,
{
    assert forall|i: int| 0 <= i < toks.len() implies (#[trigger] toks[i]).len() > 0 by {
        lemma_simple_token_value(toks[i]);
    }
    assert forall|i: int, j: int|
        0 <= i < toks.len() && 0 <= j < toks[i].len() implies !is_white_space(#[trigger] toks[i][j]) by {
        lemma_simple_token_value(toks[i]);
    }
    lemma_split_join(toks);
    lemma_parse_simple_tokens(toks);
}


/// A pattern without wildcards matches exactly where the buffer holds its
/// bytes.
pub proof fn lemma_exact_bytes_match(t: Seq<u8>, buf: Seq<u8>, i: int)
    requires
        0 <= i,
    ensures
        matches_at(t.map_values(|b: u8| Some(b)), buf, i) <==> (i + t.len() <= buf.len()
            && buf.subrange(i, i + t.len()) == t),
{
    let pat = t.map_values(|b: u8| Some(b));
    if i + t.len() <= buf.len() {
        if matches_at(pat, buf, i) {
            assert forall|j: int| 0 <= j < t.len() implies buf.subrange(i, i + t.len())[j] == t[j] by {
                assert(accepts(pat[j], buf[i + j]));
            }
            assert(buf.subrange(i, i + t.len()) =~= t);
        }
        if buf.subrange(i, i + t.len()) == t {
            assert forall|j: int| 0 <= j < pat.len() implies accepts(#[trigger] pat[j], buf[i + j]) by {
                assert(buf.subrange(i, i + t.len())[j] == buf[i + j]);
            }
        }
    }
}

/// A wildcard accepts every byte, and a byte of the pattern only itself.
pub proof fn lemma_wildcards_accept_anything(b: u8, x: u8)
    ensures
        accepts(None, b),
        accepts(Some(x), b) <==> x == b,
{
}

} // verus!
