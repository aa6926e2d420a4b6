//! Decisions of the front end that need no window: status texts, saved
//! profiles, list filters, custom signatures and manual-search requests.

use vstd::prelude::*;
use rand::seq::SliceRandom;
use crate::discovery::{DiscoverySignature, SignatureView};
use crate::encoding::{le_bytes, write_le};
use crate::numbers::{dec_digits, format_dec, format_hex, hex_digits, parse_int, parse_int_spec};
use crate::processes::ProcessView;
use crate::shared::{ProcessEntry, ScanResult, ScanResultView, ValueType};
use crate::text::{
    chars_equal_str, chars_of, contains_chars, ends_with_str, remove_all, remove_all_exec,
    seq_contains, seq_ends_with, seq_starts_with, split_on, split_on_char, starts_with_str,
    string_from_chars, to_lowercase, trim, trim_ws, unicode_lowercase,
};

verus! {

/// The texts of `v` in a random order.
///
/// Trusted: calls rand's `SliceRandom::shuffle` with the thread-local
/// generator, which only swaps items (Fisher-Yates); the order it leaves is
/// random and is not stated.
#[verifier::external_body]
fn shuffled(v: Vec<String>) -> (r: Vec<String>)
    ensures
        r@.to_multiset() == v@.to_multiset(),
{
    let mut v = v;
    v.shuffle(&mut rand::thread_rng());
    v
}

/// A copy of a list of texts, equal item by item.
fn copy_texts(v: &Vec<String>) -> (r: Vec<String>)
    ensures
        r@ == v@,
{
    let mut out: Vec<String> = Vec::new();
    let n = v.len();
    for i in 0..n
        invariant
            n == v@.len(),
            out@ == v@.take(i as int),
    {
        out.push(v[i].clone());
        assert(out@ =~= v@.take(i + 1));
    }
    assert(v@.take(n as int) =~= v@);
    out
}

/// The view of the status-text rotation.
pub struct FlavorView {
    pub all_texts: Seq<String>,
    pub remaining: Seq<String>,
    pub first_of_last_cycle: Option<String>,
}

/// The order of a new cycle of texts from the shuffled `pool`: when the pool
/// would start with the text that started the last cycle, its first two
/// texts change places.
pub open spec fn arrange_cycle(pool: Seq<String>, last_first: Option<String>) -> Seq<String> {
    match last_first {
        Some(last) => if pool.len() > 1 && pool[0]@ == last@ {
            pool.update(0, pool[1]).update(1, pool[0])
        } else {
            pool
        },
        None => pool,
    }
}

/// The rotation went from `old` to `new` by starting a new cycle from the
/// shuffled `pool`, a permutation of all texts, and handing out its first
/// text `r`.
pub open spec fn new_cycle(old: FlavorView, new: FlavorView, pool: Seq<String>, r: String) -> bool {
    let cycle = arrange_cycle(pool, old.first_of_last_cycle);
    &&& pool.to_multiset() == old.all_texts.to_multiset()
    &&& pool.len() == old.all_texts.len()
    &&& r == cycle[0]
    &&& new.remaining == cycle.drop_first()
    &&& new.first_of_last_cycle == Some(cycle[0])
}

/// The rotation went from `old` to `new` handing out `r`: the next text of
/// the current cycle, or, when the cycle is over, the first text of a new
/// one.
pub open spec fn next_text(old: FlavorView, new: FlavorView, r: String) -> bool {
    &&& new.all_texts == old.all_texts
    &&& old.remaining.len() > 0 ==> {
        &&& r == old.remaining[0]
        &&& new.remaining == old.remaining.drop_first()
        &&& new.first_of_last_cycle == old.first_of_last_cycle
    }
    &&& old.remaining.len() == 0 ==> exists|pool: Seq<String>| #[trigger] new_cycle(old, new, pool, r)
}

/// Status texts shown while a scan runs, each once per cycle, in a new
/// random order every cycle.
pub struct FlavorTextManager {
    all_texts: Vec<String>,
    remaining: Vec<String>,
    first_of_last_cycle: Option<String>,
}

impl View for FlavorTextManager {
    type V = FlavorView;

    closed spec fn view(&self) -> FlavorView {
        FlavorView {
            all_texts: self.all_texts@,
            remaining: self.remaining@,
            first_of_last_cycle: self.first_of_last_cycle,
        }
    }
}

impl FlavorTextManager {
    #[verifier::type_invariant]
    closed spec fn wf(self) -> bool {
        self.all_texts@.len() > 0
    }

    /// A rotation over `texts`, or over the one text
    /// "Reticulating Splines..." when `texts` is empty.
    pub fn new(texts: Vec<String>) -> (m: Self)
        ensures
            texts@.len() > 0 ==> m@.all_texts == texts@,
            texts@.len() == 0 ==> m@.all_texts.len() == 1 && m@.all_texts[0]@
                == "Reticulating Splines..."@,
            m@.remaining.len() == 0,
            m@.first_of_last_cycle is None,
    {
        let mut texts = texts;
        if texts.len() == 0 {
            texts.push(String::from_str("Reticulating Splines..."));
        }
        FlavorTextManager { all_texts: texts, remaining: Vec::new(), first_of_last_cycle: None }
    }

    /// The next text of the current cycle; when the cycle is over, a new
    /// one starts with all texts in a random order, arranged so as not to
    /// start like the last cycle did.
    pub fn get_next(&mut self) -> (r: String)
        ensures
            next_text(old(self)@, final(self)@, r),
    {
        proof {
            use_type_invariant(&*self);
        }
        if self.remaining.len() == 0 {
            let all = copy_texts(&self.all_texts);
            let ghost all_v = all@;
            let pool = shuffled(all);
            proof {
                vstd::seq_lib::to_multiset_len(pool@);
                vstd::seq_lib::to_multiset_len(all_v);
            }
            let ghost pool_v = pool@;
            let mut cycle = self.arrange(pool);
            let first = cycle[0].clone();
            let r = cycle.remove(0);
            self.first_of_last_cycle = Some(first);
            self.remaining = cycle;
            proof {
                assert(arrange_cycle(pool_v, old(self)@.first_of_last_cycle)[0] == r);
                assert(self@.remaining =~= arrange_cycle(pool_v, old(self)@.first_of_last_cycle).drop_first());
                assert(new_cycle(old(self)@, self@, pool_v, r));
            }
            r
        } else {
            let mut rest: Vec<String> = Vec::new();
            std::mem::swap(&mut rest, &mut self.remaining);
            let r = rest.remove(0);
            self.remaining = rest;
            proof {
                assert(self@.remaining =~= old(self)@.remaining.drop_first());
            }
            r
        }
    }

    /// `pool` arranged for a new cycle.
    fn arrange(&self, pool: Vec<String>) -> (r: Vec<String>)
        requires
            pool@.len() > 0,
        ensures
            r@ == arrange_cycle(pool@, self@.first_of_last_cycle),
            r@.len() == pool@.len(),
    {
        let mut pool = pool;
        match &self.first_of_last_cycle {
            Some(last) => {
                if pool.len() > 1 && pool[0] == *last {
                    let a = pool[0].clone();
                    let b = pool[1].clone();
                    pool.set(0, b);
                    pool.set(1, a);
                }
                pool
            },
            None => pool,
        }
    }
}

/// The name of a saved profile stored in the file `file_name`: the name
/// without ".h4ck", for a file whose name ends so.
pub open spec fn profile_name_spec(file_name: Seq<char>) -> Option<Seq<char>> {
    if seq_ends_with(file_name, ".h4ck"@) {
        Some(remove_all(file_name, ".h4ck"@))
    } else {
        None
    }
}

/// The name of the profile stored in `file_name`, if it holds one.
pub fn profile_name(file_name: &str) -> (r: Option<String>)
    ensures
        r matches Some(n) ==> profile_name_spec(file_name@) == Some(n@),
        r is None ==> profile_name_spec(file_name@) is None,
{
    let f = chars_of(file_name);
    if ends_with_str(&f, ".h4ck") {
        let ext = chars_of(".h4ck");
        let name = remove_all_exec(&f, &ext);
        Some(string_from_chars(&name))
    } else {
        None
    }
}

/// A process is listed under the category filter `filter` and the
/// lowercase search term `term`: "All" or its own category, and a term that
/// is empty or occurs in its lowercase name or its id.
pub open spec fn process_listed(p: ProcessView, filter: Seq<char>, term: Seq<char>) -> bool {
    &&& filter == "All"@ || p.category == filter
    &&& term.len() == 0 || seq_contains(unicode_lowercase(p.name), term) || seq_contains(
        dec_digits(p.pid as nat),
        term,
    )
}

/// Whether the process list shows `p` under the category filter `filter`
/// and the search term `search_term`, which is compared ignoring case.
pub fn process_visible(p: &ProcessEntry, filter: &str, search_term: &str) -> (r: bool)
    ensures
        r == process_listed(p@, filter@, unicode_lowercase(search_term@)),
{
    let lower = to_lowercase(search_term);
    let term = chars_of(lower.as_str());
    let cat = chars_of(p.category.as_str());
    let filt = chars_of(filter);
    let category_ok = chars_equal_str(&filt, "All") || crate::text::chars_equal(&cat, &filt);
    if !category_ok {
        return false;
    }
    if term.len() == 0 {
        return true;
    }
    let name_lower = to_lowercase(p.name.as_str());
    let name = chars_of(name_lower.as_str());
    if contains_chars(&name, &term) {
        return true;
    }
    let pid = format_dec(p.pid as u64);
    contains_chars(&pid, &term)
}

/// A result is listed under the category filter `filter`: "All" or its
/// own category.
pub open spec fn result_listed(r: ScanResultView, filter: Seq<char>) -> bool {
    filter == "All"@ || r.category == filter
}

/// Whether the result list shows `r` under the category filter `filter`.
pub fn result_visible(r: &ScanResult, filter: &str) -> (b: bool)
    ensures
        b == result_listed(r@, filter@),
{
    let cat = chars_of(r.category.as_str());
    let filt = chars_of(filter);
    chars_equal_str(&filt, "All") || crate::text::chars_equal(&cat, &filt)
}

/// A result answers the workspace search `query`: the query, lowercase,
/// occurs in the lowercase label or in the lowercase "0x" address.
pub open spec fn workspace_hit(r: ScanResultView, query: Seq<char>) -> bool {
    let q = unicode_lowercase(query);
    ||| (r.label matches Some(l) && seq_contains(unicode_lowercase(l), q))
    ||| seq_contains(unicode_lowercase("0x"@ + hex_digits(r.address as nat)), q)
}

/// Whether the result `r` answers the workspace search `query`.
pub fn workspace_match(r: &ScanResult, query: &str) -> (b: bool)
    ensures
        b == workspace_hit(r@, query@),
{
    let ql = to_lowercase(query);
    let q = chars_of(ql.as_str());
    let label_hit = match &r.label {
        Some(l) => {
            let ll = to_lowercase(l.as_str());
            let lc = chars_of(ll.as_str());
            contains_chars(&lc, &q)
        },
        None => false,
    };
    let mut addr = String::from_str("0x");
    crate::text::push_chars(&mut addr, &format_hex(r.address as u64));
    let al = to_lowercase(addr.as_str());
    let ac = chars_of(al.as_str());
    label_hit || contains_chars(&ac, &q)
}

/// The pieces of `s` between the separators `sep`, each trimmed.
pub open spec fn trimmed_pieces(s: Seq<char>, sep: char) -> Seq<Seq<char>> {
    split_on(s, sep).map_values(|p: Seq<char>| trim_ws(p))
}

/// The pieces of `s` between the separators `sep`, each trimmed, as
/// strings.
fn trimmed_strings(s: &str, sep: char) -> (r: Vec<String>)
    ensures
        r.deep_view() == trimmed_pieces(s@, sep),
{
    let chars = chars_of(s);
    let pieces = split_on_char(&chars, sep);
    let mut out: Vec<String> = Vec::new();
    let n = pieces.len();
    for i in 0..n
        invariant
            n == pieces@.len(),
            pieces.deep_view() == split_on(s@, sep),
            out@.len() == i,
            forall|k: int| 0 <= k < i ==> (#[trigger] out@[k])@ == trim_ws(pieces@[k]@),
    {
        let t = trim(&pieces[i]);
        out.push(string_from_chars(&t));
    }
    proof {
        assert forall|k: int| 0 <= k < n implies #[trigger] pieces.deep_view()[k] == pieces@[k]@ by {
        }
        assert(out.deep_view() =~= trimmed_pieces(s@, sep));
    }
    out
}

/// The pointer offset that the text `s` gives a custom signature: a
/// decimal `i32`, or none.
pub open spec fn ptr_offset_spec(s: Seq<char>) -> Option<i32> {
    match parse_int_spec(s, 10, i32::MIN as int, i32::MAX as int, true) {
        Ok(v) => Some(v as i32),
        Err(_) => None,
    }
}

/// The signature that the user defines with a name, aliases separated by
/// ',', patterns separated by '|' and a pointer offset: a 32-bit integer
/// in the "Custom" category, with no final offset.
pub open spec fn custom_signature_spec(
    name: Seq<char>,
    aliases: Seq<char>,
    patterns: Seq<char>,
    ptr_off: Seq<char>,
) -> SignatureView {
    SignatureView {
        name,
        aliases: trimmed_pieces(aliases, ','),
        aob_patterns: trimmed_pieces(patterns, '|'),
        offset: 0,
        ptr_offset: ptr_offset_spec(ptr_off),
        value_type: ValueType::Int32,
        category: "Custom"@,
    }
}

/// The signature that the user defines in the signature editor.
pub fn custom_signature(name: &str, aliases: &str, patterns: &str, ptr_off: &str) -> (r:
    DiscoverySignature)
    ensures
        r@ == custom_signature_spec(name@, aliases@, patterns@, ptr_off@),
{
    let off = chars_of(ptr_off);
    let ptr_offset = match parse_int(&off, 10, i32::MIN as i128, i32::MAX as i128, true) {
        Ok(v) => Some(v as i32),
        Err(_) => None,
    };
    DiscoverySignature {
        name: String::from_str(name),
        aliases: trimmed_strings(aliases, ','),
        aob_patterns: trimmed_strings(patterns, '|'),
        offset: 0,
        ptr_offset,
        value_type: ValueType::Int32,
        category: String::from_str("Custom"),
    }
}

/// The value type that a manual search of the size `size` looks for.
pub open spec fn search_type_spec(size: Seq<char>) -> ValueType {
    if size == "1 Byte"@ {
        ValueType::Byte
    } else if size == "2 Bytes"@ {
        ValueType::Int16
    } else if size == "4 Bytes"@ {
        ValueType::Int32
    } else if size == "8 Bytes"@ {
        ValueType::Int64
    } else if size == "Float"@ {
        ValueType::Float32
    } else if size == "Double"@ {
        ValueType::Float64
    } else if size == "Custom AOB"@ {
        ValueType::AOB
    } else {
        ValueType::Int32
    }
}

/// The value type that a manual search of the size `size` looks for.
pub fn search_value_type(size: &str) -> (r: ValueType)
    ensures
        r == search_type_spec(size@),
{
    let s = chars_of(size);
    if chars_equal_str(&s, "1 Byte") {
        ValueType::Byte
    } else if chars_equal_str(&s, "2 Bytes") {
        ValueType::Int16
    } else if chars_equal_str(&s, "4 Bytes") {
        ValueType::Int32
    } else if chars_equal_str(&s, "8 Bytes") {
        ValueType::Int64
    } else if chars_equal_str(&s, "Float") {
        ValueType::Float32
    } else if chars_equal_str(&s, "Double") {
        ValueType::Float64
    } else if chars_equal_str(&s, "Custom AOB") {
        ValueType::AOB
    } else {
        ValueType::Int32
    }
}

/// The bytes that an integer `v` of `width` bytes has in memory: two's
/// complement, least significant first.
pub open spec fn integer_bytes(v: int, width: nat) -> Seq<u8> {
    le_bytes(
        if v < 0 {
            (v + crate::encoding::pow256(width)) as nat
        } else {
            v as nat
        },
        width,
    )
}

/// The bytes that a manual search for the integer text `value` looks for,
/// when the search is for an integer type and the text is one: `u8` for
/// "1 Byte", `i16`, `i32` and `i64` for the other sizes, `i32` by default.
/// Floats and byte patterns are not integer searches.
pub open spec fn integer_search_spec(size: Seq<char>, value: Seq<char>) -> Option<Seq<u8>> {
    let (width, lo, hi, signed) = if size == "1 Byte"@ {
        (1nat, 0int, 255int, false)
    } else if size == "2 Bytes"@ {
        (2nat, -0x8000int, 0x7fffint, true)
    } else if size == "8 Bytes"@ {
        (8nat, i64::MIN as int, i64::MAX as int, true)
    } else {
        (4nat, i32::MIN as int, i32::MAX as int, true)
    };
    if size == "Float"@ || size == "Double"@ || size == "Custom AOB"@ {
        None
    } else {
        match parse_int_spec(value, 10, lo, hi, signed) {
            Ok(v) => Some(integer_bytes(v, width)),
            Err(_) => None,
        }
    }
}

/// The bytes that a manual search for the integer text `value` of size
/// `size` looks for, or `None` when it is no integer search or the text is
/// no integer of that size.
pub fn integer_search_bytes(size: &str, value: &str) -> (r: Option<Vec<u8>>)
    ensures
        r matches Some(b) ==> integer_search_spec(size@, value@) == Some(b@),
        r is None ==> integer_search_spec(size@, value@) is None,
{
    let s = chars_of(size);
    if chars_equal_str(&s, "Float") || chars_equal_str(&s, "Double") || chars_equal_str(
        &s,
        "Custom AOB",
    ) {
        return None;
    }
    let (width, lo, hi, signed): (usize, i128, i128, bool) = if chars_equal_str(&s, "1 Byte") {
        (1, 0, 255, false)
    } else if chars_equal_str(&s, "2 Bytes") {
        (2, -0x8000, 0x7fff, true)
    } else if chars_equal_str(&s, "8 Bytes") {
        (8, i64::MIN as i128, i64::MAX as i128, true)
    } else {
        (4, i32::MIN as i128, i32::MAX as i128, true)
    };
    let v = chars_of(value);
    match parse_int(&v, 10, lo, hi, signed) {
        Ok(n) => {
            proof {
                crate::encoding::lemma_pow256_values();
                reveal_with_fuel(crate::encoding::pow256, 3);
            }
            let unsigned: u64 = if n < 0 {
                if width == 8 {
                    (n + 0x1_0000_0000_0000_0000) as u64
                } else if width == 4 {
                    (n + 0x1_0000_0000) as u64
                } else {
                    (n + 0x1_0000) as u64
                }
            } else {
                n as u64
            };
            Some(write_le(unsigned, width))
        },
        Err(_) => None,
    }
}

/// Searches keep at most this many results.
pub const SEARCH_RESULT_LIMIT: usize = 200;

/// The results of a manual search that found the addresses `found`: the
/// first `SEARCH_RESULT_LIMIT` of them, labelled "Search".
pub open spec fn search_result_spec(found: Seq<usize>, vt: ValueType, category: Seq<char>) -> Seq<
    ScanResultView,
> {
    let kept = if found.len() > SEARCH_RESULT_LIMIT {
        found.take(SEARCH_RESULT_LIMIT as int)
    } else {
        found
    };
    kept.map_values(
        |a: usize|
            ScanResultView { address: a, value_type: vt, label: Some("Search"@), category },
    )
}

/// The results of a manual search that found the addresses `found`.
pub fn search_results(found: &Vec<usize>, vt: ValueType, category: &str) -> (r: Vec<ScanResult>)
    ensures
        r@.map_values(|x: ScanResult| x@) == search_result_spec(found@, vt, category@),
{
    let n = if found.len() > SEARCH_RESULT_LIMIT {
        SEARCH_RESULT_LIMIT
    } else {
        found.len()
    };
    let mut out: Vec<ScanResult> = Vec::new();
    for i in 0..n
        invariant
            n <= found@.len(),
            n == (if found@.len() > SEARCH_RESULT_LIMIT {
                SEARCH_RESULT_LIMIT as int
            } else {
                found@.len() as int
            }),
            out@.len() == i,
            forall|k: int|
                0 <= k < i ==> (#[trigger] out@[k])@ == (ScanResultView {
                    address: found@[k],
                    value_type: vt,
                    label: Some("Search"@),
                    category: category@,
                }),
    {
        out.push(
            ScanResult {
                address: found[i],
                value_type: vt,
                label: Some(String::from_str("Search")),
                category: String::from_str(category),
            },
        );
    }
    assert(out@.map_values(|x: ScanResult| x@) =~= search_result_spec(found@, vt, category@));
    out
}

/// The category of the process with id `pid` in the list `procs`, or
/// "Third Party" when it is not listed.
pub open spec fn category_of_spec(procs: Seq<ProcessView>, pid: i32) -> Seq<char>
    decreases procs.len(),
{
    if procs.len() == 0 {
        "Third Party"@
    } else if procs[0].pid as i32 == pid {
        procs[0].category
    } else {
        category_of_spec(procs.drop_first(), pid)
    }
}

/// The category of the process with id `pid` in the list `procs`.
pub fn category_of(procs: &Vec<ProcessEntry>, pid: i32) -> (r: String)
    ensures
        r@ == category_of_spec(procs@.map_values(|p: ProcessEntry| p@), pid),
{
    let ghost pv = procs@.map_values(|p: ProcessEntry| p@);
    let n = procs.len();
    let mut i: usize = 0;
    assert(pv.skip(0) =~= pv);
    while i < n
        invariant
            n == procs@.len(),
            i <= n,
            pv == procs@.map_values(|p: ProcessEntry| p@),
            category_of_spec(pv, pid) == category_of_spec(pv.skip(i as int), pid),
        decreases n - i,
    {
        proof {
            assert(pv.skip(i as int)[0] == procs@[i as int]@);
            assert(pv.skip(i as int).drop_first() =~= pv.skip(i + 1));
        }
        if procs[i].pid as i32 == pid {
            return procs[i].category.clone();
        }
        i = i + 1;
    }
    String::from_str("Third Party")
}

/// Log records of these targets come from the window toolkit and are not
/// shown, so that showing a record never produces another.
pub open spec fn log_forwarded(target: Seq<char>) -> bool {
    !seq_starts_with(target, "slint"@) && !seq_starts_with(target, "winit"@)
}

/// Whether the debug console shows log records of `target`.
pub fn forwards_log_target(target: &str) -> (r: bool)
    ensures
        r == log_forwarded(target@),
{
    let t = chars_of(target);
    !starts_with_str(&t, "slint") && !starts_with_str(&t, "winit")
}

/// A new cycle never starts with the text that started the last one, as
/// long as the shuffled pool's first two texts differ (as they do when all
/// texts are distinct).
pub proof fn lemma_cycle_start_changes(pool: Seq<String>, last: String)
    requires
        pool.len() > 1,
        pool[0]@ != pool[1]@,
    ensures
        arrange_cycle(pool, Some(last))[0]@ != last@,
{
}

/// A cycle holds exactly the texts of the pool it was arranged from.
pub proof fn lemma_cycle_is_permutation(pool: Seq<String>, last_first: Option<String>)
    ensures
        arrange_cycle(pool, last_first).to_multiset() == pool.to_multiset(),
        arrange_cycle(pool, last_first).len() == pool.len(),
{
    broadcast use vstd::seq_lib::group_to_multiset_ensures;

    match last_first {
        Some(last) => {
            if pool.len() > 1 && pool[0]@ == last@ {
                let swapped = pool.update(0, pool[1]).update(1, pool[0]);
                vstd::seq_lib::to_multiset_update(pool, 0, pool[1]);
                vstd::seq_lib::to_multiset_update(pool.update(0, pool[1]), 1, pool[0]);
                assert(swapped.to_multiset() =~= pool.to_multiset());
            }
        },
        None => {},
    }
}


/// The calls after the first of a cycle hand out the rest of the cycle,
/// in order.
proof fn lemma_rest_of_cycle(views: Seq<FlavorView>, outs: Seq<String>, cycle: Seq<String>, i: int)
    requires
        views.len() == outs.len() + 1,
        cycle.len() == outs.len(),
        1 <= i <= outs.len(),
        views[i].remaining == cycle.skip(i),
        forall|j: int| 0 <= j < outs.len() ==> next_text(#[trigger] views[j], views[j + 1], outs[j]),
    ensures
        forall|k: int| i <= k < outs.len() ==> outs[k] == cycle[k],
    decreases outs.len() - i,
{
    if i < outs.len() {
        assert(next_text(views[i], views[i + 1], outs[i]));
        assert(views[i].remaining.len() > 0);
        assert(outs[i] == cycle[i]);
        assert(views[i + 1].remaining =~= cycle.skip(i + 1));
        lemma_rest_of_cycle(views, outs, cycle, i + 1);
    }
}

/// Over a cycle of status texts, handed out from a rotation whose cycle is
/// over, every text comes exactly once; and when the texts are distinct
/// and more than one, the cycle does not start with the text that started
/// the last one.
pub proof fn lemma_cycle_hands_out_every_text(views: Seq<FlavorView>, outs: Seq<String>)
    requires
        views.len() == outs.len() + 1,
        outs.len() == views[0].all_texts.len(),
        views[0].remaining.len() == 0,
        forall|i: int| 0 <= i < outs.len() ==> next_text(#[trigger] views[i], views[i + 1], outs[i]),
    ensures
        outs.to_multiset() == views[0].all_texts.to_multiset(),
        views[0].all_texts.len() > 1 && views[0].first_of_last_cycle is Some && (forall|i: int, j: int|
            0 <= i < j < views[0].all_texts.len() ==> views[0].all_texts[i]@
                != views[0].all_texts[j]@) ==> outs[0]@ != views[0].first_of_last_cycle.unwrap()@,
{
    broadcast use vstd::seq_lib::group_to_multiset_ensures;

    let all = views[0].all_texts;
    let n = outs.len();
    if n == 0 {
        assert(outs =~= all);
    } else {
        assert(next_text(views[0], views[1], outs[0]));
        let pool = choose|pool: Seq<String>| #[trigger] new_cycle(views[0], views[1], pool, outs[0]);
        let first = views[0].first_of_last_cycle;
        let cycle = arrange_cycle(pool, first);
        lemma_cycle_is_permutation(pool, first);
        assert(views[1].remaining =~= cycle.skip(1));
        lemma_rest_of_cycle(views, outs, cycle, 1);
        assert(outs =~= cycle);
        if all.len() > 1 && first is Some && (forall|i: int, j: int|
            0 <= i < j < all.len() ==> all[i]@ != all[j]@) {
            assert(all.no_duplicates()) by {
                assert forall|i: int, j: int| 0 <= i < all.len() && 0 <= j < all.len() && i != j implies all[i]
                    != all[j] by {
                    if i < j {
                        assert(all[i]@ != all[j]@);
                    } else {
                        assert(all[j]@ != all[i]@);
                    }
                }
            }
            all.lemma_multiset_has_no_duplicates();
            assert forall|x: String| pool.to_multiset().contains(x) implies pool.to_multiset().count(x)
                == 1 by {
                assert(all.to_multiset().contains(x));
            }
            pool.lemma_multiset_has_no_duplicates_conv();
            assert(pool[0] != pool[1]);
            assert(pool.contains(pool[0]));
            assert(all.to_multiset().count(pool[0]) > 0);
            assert(all.contains(pool[0]));
            let a = choose|a: int| 0 <= a < all.len() && all[a] == pool[0];
            assert(pool.contains(pool[1]));
            assert(all.to_multiset().count(pool[1]) > 0);
            assert(all.contains(pool[1]));
            let b = choose|b: int| 0 <= b < all.len() && all[b] == pool[1];
            assert(a != b);
            if a < b {
                assert(all[a]@ != all[b]@);
            } else {
                assert(all[b]@ != all[a]@);
            }
            lemma_cycle_start_changes(pool, first.unwrap());
        }
    }
}

} // verus!
