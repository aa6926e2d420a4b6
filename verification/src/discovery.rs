//! "Smart Scan": signatures of game variables (name, aliases, byte
//! patterns, pointer resolution) and the decisions of a discovery pass.

use vstd::prelude::*;
use crate::aob::{AOBScanner, lemma_simple_pattern_parses, parse_pattern_spec, simple_token};
use crate::differential::i32_of;
use crate::encoding::{le_value, read_le};
use crate::shared::{ScanResult, ScanResultView, ValueType};
use crate::text::{join_ws, chars_of, contains_str, push_str, seq_contains, to_lowercase, unicode_lowercase};

verus! {

/// The view of a signature: plain values and character sequences.
pub struct SignatureView {
    pub name: Seq<char>,
    pub aliases: Seq<Seq<char>>,
    pub aob_patterns: Seq<Seq<char>>,
    pub offset: i32,
    pub ptr_offset: Option<i32>,
    pub value_type: ValueType,
    pub category: Seq<char>,
}

/// DiscoverySignature holds criteria for finding a specific game variable.
#[derive(Debug)]
pub struct DiscoverySignature {
    pub name: String,
    pub aliases: Vec<String>,
    pub aob_patterns: Vec<String>,
    /// Final offset added to the resolved address.
    pub offset: i32,
    /// Offset within a match of a rel32 displacement to follow.
    pub ptr_offset: Option<i32>,
    pub value_type: ValueType,
    pub category: String,
}

impl View for DiscoverySignature {
    type V = SignatureView;

    open spec fn view(&self) -> SignatureView {
        SignatureView {
            name: self.name@,
            aliases: self.aliases.deep_view(),
            aob_patterns: self.aob_patterns.deep_view(),
            offset: self.offset,
            ptr_offset: self.ptr_offset,
            value_type: self.value_type,
            category: self.category@,
        }
    }
}

/// A copy of a list of strings.
pub fn clone_strings(v: &Vec<String>) -> (r: Vec<String>)
    ensures
        r.deep_view() == v.deep_view(),
{
    let mut out: Vec<String> = Vec::new();
    let n = v.len();
    for i in 0..n
        invariant
            n == v@.len(),
            out@.len() == i,
            forall|k: int| 0 <= k < i ==> (#[trigger] out@[k])@ == v@[k]@,
    {
        out.push(v[i].clone());
    }
    assert(out.deep_view() =~= v.deep_view());
    out
}

impl Clone for DiscoverySignature {
    fn clone(&self) -> (r: Self)
        ensures
            r@ == self@,
    {
        DiscoverySignature {
            name: self.name.clone(),
            aliases: clone_strings(&self.aliases),
            aob_patterns: clone_strings(&self.aob_patterns),
            offset: self.offset,
            ptr_offset: self.ptr_offset,
            value_type: self.value_type,
            category: self.category.clone(),
        }
    }
}

/// The views of a list of signatures.
pub open spec fn views(sigs: Seq<DiscoverySignature>) -> Seq<SignatureView> {
    sigs.map_values(|s: DiscoverySignature| s@)
}

/// A list of strings with the given texts.
fn strings(texts: Vec<&str>) -> (r: Vec<String>)
    ensures
        r@.len() == texts@.len(),
        forall|i: int| 0 <= i < texts@.len() ==> (#[trigger] r@[i])@ == texts@[i]@,
{
    let mut out: Vec<String> = Vec::new();
    let n = texts.len();
    for i in 0..n
        invariant
            n == texts@.len(),
            out@.len() == i,
            forall|k: int| 0 <= k < i ==> (#[trigger] out@[k])@ == texts@[k]@,
    {
        out.push(String::from_str(texts[i]));
    }
    out
}

/// The aliases under which health is known.
pub open spec fn health_aliases() -> Seq<Seq<char>> {
    seq!["HP"@, "Health"@, "Vitality"@, "Vitals"@, "Life"@, "LifeForce"@]
}

/// The signatures that a new engine knows: four for health (a rel32 load,
/// a float read, a double read, a 16-bit read) and two for money.
pub open spec fn builtin_signatures() -> Seq<SignatureView> {
    seq![
        SignatureView {
            name: "Health"@,
            aliases: health_aliases(),
            aob_patterns: seq!["48 8B 05 ?? ?? ?? ?? 48 8B 88 ?? ?? ?? ?? 89 81"@],
            offset: 0,
            ptr_offset: Some(3),
            value_type: ValueType::Int32,
            category: "Games"@,
        },
        SignatureView {
            name: "Health"@,
            aliases: health_aliases(),
            aob_patterns: seq!["F3 0F 10 40 ?? F3 0F 5C 44 24 ?? 0F 2F 05"@],
            offset: 0,
            ptr_offset: None,
            value_type: ValueType::Float32,
            category: "Games"@,
        },
        SignatureView {
            name: "Health"@,
            aliases: health_aliases(),
            aob_patterns: seq!["F2 0F 10 ?? ?? ?? ?? ?? F3 0F 5C ?? ?? ?? ?? ??"@],
            offset: 0,
            ptr_offset: Some(4),
            value_type: ValueType::Float64,
            category: "Games"@,
        },
        SignatureView {
            name: "Health"@,
            aliases: health_aliases(),
            aob_patterns: seq!["66 8B ?? ?? ?? ?? ?? 66 89 ?? ?? ?? ?? ??"@],
            offset: 0,
            ptr_offset: Some(3),
            value_type: ValueType::Int16,
            category: "Games"@,
        },
        SignatureView {
            name: "Money"@,
            aliases: seq!["Gold"@, "Coin"@, "Credits"@],
            aob_patterns: seq!["48 8B 05 ?? ?? ?? ?? 48 8B 48 ?? 48 8B 01"@],
            offset: 0,
            ptr_offset: Some(3),
            value_type: ValueType::Int32,
            category: "Games"@,
        },
        SignatureView {
            name: "Money"@,
            aliases: seq!["Gold"@, "Wealth"@],
            aob_patterns: seq!["F2 0F 10 05 ?? ?? ?? ?? F2 0F 58 44 24"@],
            offset: 0,
            ptr_offset: Some(4),
            value_type: ValueType::Float64,
            category: "Games"@,
        },
    ]
}

/// A signature built from literal texts.
fn signature(
    name: &str,
    aliases: Vec<&str>,
    pattern: &str,
    ptr_offset: Option<i32>,
    value_type: ValueType,
) -> (r: DiscoverySignature)
    ensures
        r@.name == name@,
        r@.aliases == aliases@.map_values(|a: &str| a@),
        r@.aob_patterns == seq![pattern@],
        r@.offset == 0,
        r@.ptr_offset == ptr_offset,
        r@.value_type == value_type,
        r@.category == "Games"@,
{
    let al = strings(aliases);
    let mut pats: Vec<String> = Vec::new();
    pats.push(String::from_str(pattern));
    let r = DiscoverySignature {
        name: String::from_str(name),
        aliases: al,
        aob_patterns: pats,
        offset: 0,
        ptr_offset,
        value_type,
        category: String::from_str("Games"),
    };
    assert(r.aliases.deep_view() =~= aliases@.map_values(|a: &str| a@));
    assert(r.aob_patterns.deep_view() =~= seq![pattern@]);
    r
}

/// DiscoveryEngine handles the "Smart Scan" functionality with aliasing and
/// multiple heuristic patterns.
pub struct DiscoveryEngine {
    signatures: Vec<DiscoverySignature>,
}

impl View for DiscoveryEngine {
    type V = Seq<SignatureView>;

    closed spec fn view(&self) -> Seq<SignatureView> {
        views(self.signatures@)
    }
}

impl DiscoveryEngine {
    /// An engine that knows the built-in signatures.
    pub fn new() -> (e: Self)
        ensures
            e@ == builtin_signatures(),
    {
        let mut sigs: Vec<DiscoverySignature> = Vec::new();
        let s0 = signature(
                "Health",
                vec!["HP", "Health", "Vitality", "Vitals", "Life", "LifeForce"],
                "48 8B 05 ?? ?? ?? ?? 48 8B 88 ?? ?? ?? ?? 89 81",
                Some(3),
                ValueType::Int32,
            );
        assert(s0@.aliases =~= builtin_signatures()[0].aliases);
        assert(s0@.aob_patterns =~= builtin_signatures()[0].aob_patterns);
        sigs.push(s0);
        let s1 = signature(
                "Health",
                vec!["HP", "Health", "Vitality", "Vitals", "Life", "LifeForce"],
                "F3 0F 10 40 ?? F3 0F 5C 44 24 ?? 0F 2F 05",
                None,
                ValueType::Float32,
            );
        assert(s1@.aliases =~= builtin_signatures()[1].aliases);
        assert(s1@.aob_patterns =~= builtin_signatures()[1].aob_patterns);
        sigs.push(s1);
        let s2 = signature(
                "Health",
                vec!["HP", "Health", "Vitality", "Vitals", "Life", "LifeForce"],
                "F2 0F 10 ?? ?? ?? ?? ?? F3 0F 5C ?? ?? ?? ?? ??",
                Some(4),
                ValueType::Float64,
            );
        assert(s2@.aliases =~= builtin_signatures()[2].aliases);
        assert(s2@.aob_patterns =~= builtin_signatures()[2].aob_patterns);
        sigs.push(s2);
        let s3 = signature(
                "Health",
                vec!["HP", "Health", "Vitality", "Vitals", "Life", "LifeForce"],
                "66 8B ?? ?? ?? ?? ?? 66 89 ?? ?? ?? ?? ??",
                Some(3),
                ValueType::Int16,
            );
        assert(s3@.aliases =~= builtin_signatures()[3].aliases);
        assert(s3@.aob_patterns =~= builtin_signatures()[3].aob_patterns);
        sigs.push(s3);
        let s4 = signature(
                "Money",
                vec!["Gold", "Coin", "Credits"],
                "48 8B 05 ?? ?? ?? ?? 48 8B 48 ?? 48 8B 01",
                Some(3),
                ValueType::Int32,
            );
        assert(s4@.aliases =~= builtin_signatures()[4].aliases);
        assert(s4@.aob_patterns =~= builtin_signatures()[4].aob_patterns);
        sigs.push(s4);
        let s5 = signature(
                "Money",
                vec!["Gold", "Wealth"],
                "F2 0F 10 05 ?? ?? ?? ?? F2 0F 58 44 24",
                Some(4),
                ValueType::Float64,
            );
        assert(s5@.aliases =~= builtin_signatures()[5].aliases);
        assert(s5@.aob_patterns =~= builtin_signatures()[5].aob_patterns);
        sigs.push(s5);
        let e = Self { signatures: sigs };
        assert(e@ =~= builtin_signatures());
        e
    }

    /// A copy of every signature the engine knows, in order.
    pub fn get_signatures(&self) -> (r: Vec<DiscoverySignature>)
        ensures
            views(r@) == self@,
    {
        let mut out: Vec<DiscoverySignature> = Vec::new();
        let n = self.signatures.len();
        for i in 0..n
            invariant
                n == self.signatures@.len(),
                out@.len() == i,
                forall|k: int| 0 <= k < i ==> (#[trigger] out@[k])@ == self.signatures@[k]@,
        {
            out.push(self.signatures[i].clone());
        }
        assert(views(out@) =~= self@);
        out
    }

    /// Adds a signature after the ones the engine knows.
    pub fn add_signature(&mut self, sig: DiscoverySignature)
        ensures
            final(self)@ == old(self)@.push(sig@),
    {
        let ghost v = sig@;
        self.signatures.push(sig);
        assert(self@ =~= old(self)@.push(v));
    }
}

/// The value type that a targeted scan probes for, from the text of the
/// chosen mode.
pub open spec fn target_type_spec(t: Seq<char>) -> ValueType {
    if seq_contains(t, "Float"@) {
        ValueType::Float32
    } else if seq_contains(t, "Double"@) {
        ValueType::Float64
    } else if seq_contains(t, "Short"@) || seq_contains(t, "Int16"@) {
        ValueType::Int16
    } else if seq_contains(t, "Byte"@) {
        ValueType::Byte
    } else {
        ValueType::Int32
    }
}

/// The value type that a targeted scan probes for in mode `target_type`.
pub fn target_value_type(target_type: &str) -> (r: ValueType)
    ensures
        r == target_type_spec(target_type@),
{
    let t = chars_of(target_type);
    if contains_str(&t, "Float") {
        ValueType::Float32
    } else if contains_str(&t, "Double") {
        ValueType::Float64
    } else if contains_str(&t, "Short") || contains_str(&t, "Int16") {
        ValueType::Int16
    } else if contains_str(&t, "Byte") {
        ValueType::Byte
    } else {
        ValueType::Int32
    }
}

/// The signature is known under the lowercase name `lower_target`: its name
/// or one of its aliases lowercases to it.
pub open spec fn answers_to(sig: SignatureView, lower_target: Seq<char>) -> bool {
    ||| unicode_lowercase(sig.name) == lower_target
    ||| exists|i: int| 0 <= i < sig.aliases.len() && unicode_lowercase(sig.aliases[i]) == lower_target
}

/// The signatures of type `vt` known under `lower_target`, in order.
pub open spec fn select_spec(sigs: Seq<SignatureView>, lower_target: Seq<char>, vt: ValueType) -> Seq<
    SignatureView,
>
    decreases sigs.len(),
{
    if sigs.len() == 0 {
        seq![]
    } else {
        let rest = select_spec(sigs.drop_last(), lower_target, vt);
        if sigs.last().value_type == vt && answers_to(sigs.last(), lower_target) {
            rest.push(sigs.last())
        } else {
            rest
        }
    }
}

/// Whether the signature is known under the lowercase name `lower`.
fn signature_answers_to(sig: &DiscoverySignature, lower: &String) -> (r: bool)
    ensures
        r == answers_to(sig@, lower@),
{
    let name = to_lowercase(sig.name.as_str());
    if name == *lower {
        return true;
    }
    let n = sig.aliases.len();
    for i in 0..n
        invariant
            n == sig.aliases@.len(),
            unicode_lowercase(sig@.name) != lower@,
            forall|k: int| 0 <= k < i ==> unicode_lowercase(sig@.aliases[k]) != lower@,
    {
        let a = to_lowercase(sig.aliases[i].as_str());
        assert(sig@.aliases[i as int] == sig.aliases@[i as int]@);
        if a == *lower {
            return true;
        }
    }
    false
}

impl DiscoveryEngine {
    /// The signatures that a targeted scan for `target` in mode
    /// `target_type` probes: those of the mode's value type whose name or an
    /// alias matches `target` ignoring case, in order.
    pub fn select_targets(&self, target: &str, target_type: &str) -> (r: Vec<DiscoverySignature>)
        ensures
            views(r@) == select_spec(
                self@,
                unicode_lowercase(target@),
                target_type_spec(target_type@),
            ),
    {
        let lower = to_lowercase(target);
        let vtype = target_value_type(target_type);
        let mut out: Vec<DiscoverySignature> = Vec::new();
        let n = self.signatures.len();
        for i in 0..n
            invariant
                n == self.signatures@.len(),
                lower@ == unicode_lowercase(target@),
                vtype == target_type_spec(target_type@),
                views(out@) == select_spec(self@.take(i as int), lower@, vtype),
        {
            let sig = &self.signatures[i];
            proof {
                assert(self@.take(i + 1).drop_last() =~= self@.take(i as int));
                assert(self@.take(i + 1).last() == sig@);
            }
            if sig.value_type == vtype && signature_answers_to(sig, &lower) {
                let ghost before = views(out@);
                out.push(sig.clone());
                assert(views(out@) =~= before.push(sig@));
            }
        }
        assert(self@.take(n as int) =~= self@);
        out
    }
}

/// `x` clamped to the range of `i64`, as saturating arithmetic leaves it.
pub open spec fn sat_i64(x: int) -> int {
    if x > i64::MAX {
        i64::MAX as int
    } else if x < i64::MIN {
        i64::MIN as int
    } else {
        x
    }
}

/// An address read as a signed 64-bit number.
pub open spec fn signed_address(a: usize) -> int {
    (a as i64) as int
}

/// A signed 64-bit number taken back as an address.
pub open spec fn address_of(x: int) -> usize {
    (x as i64) as usize
}

/// Where the displacement of a match at `addr` lies: `ptr_offset` bytes in.
pub open spec fn pointer_location(addr: usize, ptr_offset: i32) -> usize {
    address_of(sat_i64(signed_address(addr) + ptr_offset))
}

/// The bounds of user space in which a displacement is read.
pub open spec fn in_user_space(a: usize) -> bool {
    0x10000 <= a && a <= 0x7FFF_FFFF_FFFF
}

/// The address that a rel32 displacement `d` stored at `loc` designates:
/// the address of the next instruction, `loc + 4`, plus `d`.
pub open spec fn rel32_target(loc: usize, d: int) -> usize {
    address_of(sat_i64(sat_i64(signed_address(loc) + 4) + d))
}

/// The address `target` moved by the signature's final `offset`.
pub open spec fn offset_address(target: usize, offset: i32) -> usize {
    address_of(sat_i64(signed_address(target) + offset))
}

/// The signed displacement that four little-endian bytes hold.
pub open spec fn displacement(b: Seq<u8>) -> int {
    i32_of(le_value(b))
}

/// Adds two signed 64-bit numbers, saturating at the bounds.
fn saturating_add_i64(a: i64, b: i64) -> (r: i64)
    ensures
        r == sat_i64(a + b),
{
    let s: i128 = (a as i128) + (b as i128);
    if s > (i64::MAX as i128) {
        i64::MAX
    } else if s < (i64::MIN as i128) {
        i64::MIN
    } else {
        s as i64
    }
}

/// Where the displacement of a match at `addr` lies.
pub fn locate_pointer(addr: usize, ptr_offset: i32) -> (r: usize)
    ensures
        r == pointer_location(addr, ptr_offset),
{
    saturating_add_i64(addr as i64, ptr_offset as i64) as usize
}

/// The address that the displacement `d` stored at `loc` designates.
pub fn follow_rel32(loc: usize, d: i32) -> (r: usize)
    ensures
        r == rel32_target(loc, d as int),
{
    saturating_add_i64(saturating_add_i64(loc as i64, 4), d as i64) as usize
}

/// The address `target` moved by `offset`.
pub fn apply_offset(target: usize, offset: i32) -> (r: usize)
    ensures
        r == offset_address(target, offset),
{
    saturating_add_i64(target as i64, offset as i64) as usize
}

/// Whether `a` lies in user space.
pub fn user_space(a: usize) -> (r: bool)
    ensures
        r == in_user_space(a),
{
    (a as u64) >= 0x10000 && (a as u64) <= 0x7FFF_FFFF_FFFF
}

/// A displacement at a location in user space designates the address of the
/// next instruction plus the displacement, whenever that is not negative.
pub proof fn lemma_rel32_in_user_space(loc: usize, d: i32)
    requires
        in_user_space(loc),
        0 <= loc + 4 + d <= usize::MAX,
    ensures
        rel32_target(loc, d as int) == loc + 4 + d,
{
    assert(signed_address(loc) == loc);
    assert(sat_i64(signed_address(loc) + 4) == loc + 4);
    assert(sat_i64(loc + 4 + d) == loc + 4 + d);
    let x: int = loc + 4 + d;
    assert((x as i64) as int == x);
    assert(((x as i64) as usize) as int == x);
}

/// Matches after which a pattern's results stop being taken.
pub const PATTERN_RESULT_CAP: usize = 50;

/// Results after which each signature tries only one more pattern.
pub const PASS_RESULT_CAP: usize = 500;

/// The lowest address that a discovered variable may have.
pub const MIN_VARIABLE_ADDRESS: usize = 0x10000;

/// Bytes read before a candidate to look for its name nearby; a candidate is
/// accepted when at least this many bytes could be read.
pub const SURROUNDINGS_BEFORE: usize = 128;

/// What a discovery pass asks to be read next for the current pattern.
#[derive(Debug, Clone, Copy, PartialEq, Eq, Structural)]
pub enum Probe {
    /// Read the four bytes of a rel32 displacement at this address.
    ReadDisplacement(usize),
    /// Read the 256 bytes around a candidate, starting at this address.
    ReadSurroundings(usize),
    /// The current pattern's matches are done.
    PatternDone,
}

/// The stages of a discovery pass.
#[derive(Debug, Clone, Copy, PartialEq, Eq, Structural)]
pub enum PassStage {
    /// Looking for the next pattern to scan.
    Seeking,
    /// Waiting for the matches of the current pattern.
    Scanning,
    /// Going through the matches of the current pattern.
    Matching,
    /// Waiting for the displacement at `pending`.
    AwaitingDisplacement,
    /// Waiting for the bytes around the candidate `pending`.
    AwaitingSurroundings,
    /// Done.
    Finished,
}

/// The label of a result found by a signature named `name`.
pub open spec fn label_text(name: Seq<char>) -> Seq<char> {
    name + " (Ptr Resolved)"@
}

/// `r` is a result of the signature `sig`: its type, category and label,
/// at an address no lower than `MIN_VARIABLE_ADDRESS`.
pub open spec fn result_of(r: ScanResultView, sig: SignatureView) -> bool {
    &&& r.value_type == sig.value_type
    &&& r.category == sig.category
    &&& r.label == Some(label_text(sig.name))
    &&& r.address >= MIN_VARIABLE_ADDRESS
}

/// Where a pass goes after the pattern `(s, p)`: the next pattern, or the
/// next signature once `PASS_RESULT_CAP` results are held.
pub open spec fn after_pattern(s: nat, p: nat, held: nat) -> (nat, nat) {
    if held >= PASS_RESULT_CAP {
        ((s + 1) as nat, 0)
    } else {
        (s, (p + 1) as nat)
    }
}

/// The first pattern at or after `(s, p)` that parses, skipping those that
/// do not as `after_pattern` says.
pub open spec fn seek(sigs: Seq<SignatureView>, s: nat, p: nat, held: nat) -> Option<(nat, nat)>
    decreases sigs.len() - s, sigs[s as int].aob_patterns.len() - p,
{
    if s >= sigs.len() {
        None
    } else if p >= sigs[s as int].aob_patterns.len() {
        seek(sigs, (s + 1) as nat, 0, held)
    } else if parse_pattern_spec(sigs[s as int].aob_patterns[p as int]) is Ok {
        Some((s, p))
    } else {
        let next = after_pattern(s, p, held);
        seek(sigs, next.0, next.1, held)
    }
}

/// Where the bytes around a candidate at `a` are read from.
pub open spec fn window_start(a: usize) -> usize {
    if a >= SURROUNDINGS_BEFORE {
        (a - SURROUNDINGS_BEFORE) as usize
    } else {
        0
    }
}

/// What a match at `addr` of signature `sig` asks to be read, if anything:
/// the displacement when the signature follows a pointer and its location
/// lies in user space, else the surroundings of the final address when it
/// is no lower than `MIN_VARIABLE_ADDRESS`.
pub open spec fn request_at(sig: SignatureView, addr: usize) -> Option<Probe> {
    match sig.ptr_offset {
        Some(off) => {
            let loc = pointer_location(addr, off);
            if in_user_space(loc) {
                Some(Probe::ReadDisplacement(loc))
            } else {
                None
            }
        },
        None => {
            let fin = offset_address(addr, sig.offset);
            if fin < MIN_VARIABLE_ADDRESS {
                None
            } else {
                Some(Probe::ReadSurroundings(window_start(fin)))
            }
        },
    }
}

/// The first match at or after index `i` that asks for a read.
pub open spec fn first_request(sig: SignatureView, matches: Seq<usize>, i: nat) -> Option<nat>
    decreases matches.len() - i,
{
    if i >= matches.len() {
        None
    } else if request_at(sig, matches[i as int]) is Some {
        Some(i)
    } else {
        first_request(sig, matches, (i + 1) as nat)
    }
}

/// The view of a discovery pass.
pub struct PassView {
    pub sigs: Seq<SignatureView>,
    pub sig_idx: nat,
    pub pat_idx: nat,
    pub matches: Seq<usize>,
    pub match_idx: nat,
    pub pending: usize,
    pub results: Seq<ScanResultView>,
    pub stage: PassStage,
}

/// The signature whose pattern a pass is at.
pub open spec fn current_signature(v: PassView) -> SignatureView {
    v.sigs[v.sig_idx as int]
}

/// The pass moved from `old` past its current pattern, as `after_pattern`
/// says, and changed nothing else.
pub open spec fn pattern_ended(old: PassView, new: PassView) -> bool {
    &&& new.stage == PassStage::Seeking
    &&& (new.sig_idx, new.pat_idx) == after_pattern(old.sig_idx, old.pat_idx, old.results.len())
    &&& new.sigs == old.sigs
    &&& new.results == old.results
}

/// The pass moved from `old` to the match at index `j` and asks for `r`,
/// the read that this match needs; it waits for the displacement at the
/// pointer location, or for the surroundings of the final address.
pub open spec fn probe_taken(old: PassView, new: PassView, j: nat, r: Probe) -> bool {
    let sig = current_signature(old);
    let addr = old.matches[j as int];
    &&& Some(r) == request_at(sig, addr)
    &&& new.match_idx == j
    &&& new.sigs == old.sigs
    &&& new.results == old.results
    &&& new.sig_idx == old.sig_idx
    &&& new.pat_idx == old.pat_idx
    &&& new.matches == old.matches
    &&& r matches Probe::ReadDisplacement(loc) ==> new.stage == PassStage::AwaitingDisplacement
        && new.pending == loc
    &&& r matches Probe::ReadSurroundings(_) ==> new.stage == PassStage::AwaitingSurroundings
        && new.pending == offset_address(addr, sig.offset)
}

/// The address that the displacement read `read` at `loc` leads to, moved
/// by the signature's final offset, when the read succeeded with four bytes
/// and the address is no lower than `MIN_VARIABLE_ADDRESS`.
pub open spec fn displacement_outcome(sig: SignatureView, loc: usize, read: Option<Seq<u8>>) -> Option<
    usize,
> {
    match read {
        Some(b) => if b.len() == 4 {
            let fin = offset_address(rel32_target(loc, displacement(b)), sig.offset);
            if fin >= MIN_VARIABLE_ADDRESS {
                Some(fin)
            } else {
                None
            }
        } else {
            None
        },
        None => None,
    }
}

/// The result kept for a candidate at `address` of signature `sig`.
pub open spec fn candidate_result(sig: SignatureView, address: usize) -> ScanResultView {
    ScanResultView {
        address,
        value_type: sig.value_type,
        label: Some(label_text(sig.name)),
        category: sig.category,
    }
}

/// The signed displacement held by four little-endian bytes.
fn displacement_of(b: &[u8]) -> (d: i32)
    requires
        b@.len() == 4,
    ensures
        d as int == displacement(b@),
{
    proof {
        crate::encoding::lemma_le_value_bound(b@);
        crate::encoding::lemma_pow256_values();
    }
    let w = read_le(b);
    if w < 0x8000_0000 {
        w as i32
    } else {
        ((w as i64) - 0x1_0000_0000) as i32
    }
}

/// The views of a list of results.
pub open spec fn result_views(rs: Seq<ScanResult>) -> Seq<ScanResultView> {
    rs.map_values(|r: ScanResult| r@)
}

/// One "Smart Scan" pass over a list of signatures. The pass asks for the
/// outside work (scanning a pattern, reading memory) and decides everything
/// else: which pattern comes next, where pointers lead, which candidates are
/// kept, and when to stop.
pub struct DiscoveryPass {
    sigs: Vec<DiscoverySignature>,
    sig_idx: usize,
    pat_idx: usize,
    matches: Vec<usize>,
    match_idx: usize,
    pending: usize,
    results: Vec<ScanResult>,
    stage: PassStage,
}

impl View for DiscoveryPass {
    type V = PassView;

    closed spec fn view(&self) -> PassView {
        PassView {
            sigs: views(self.sigs@),
            sig_idx: self.sig_idx as nat,
            pat_idx: self.pat_idx as nat,
            matches: self.matches@,
            match_idx: self.match_idx as nat,
            pending: self.pending,
            results: result_views(self.results@),
            stage: self.stage,
        }
    }
}

/// `r` is a result of one of the signatures `sigs`.
pub open spec fn from_signatures(r: ScanResultView, sigs: Seq<SignatureView>) -> bool {
    exists|k: int| 0 <= k < sigs.len() && result_of(r, #[trigger] sigs[k])
}

/// Every result of a pass comes from one of its signatures.
pub open spec fn results_sound(v: PassView) -> bool {
    forall|i: int| 0 <= i < v.results.len() ==> from_signatures(#[trigger] v.results[i], v.sigs)
}

impl DiscoveryPass {
    #[verifier::type_invariant]
    closed spec fn wf(self) -> bool {
        let v = self@;
        &&& results_sound(v)
        &&& (v.stage == PassStage::Scanning || v.stage == PassStage::Matching || v.stage
            == PassStage::AwaitingDisplacement || v.stage == PassStage::AwaitingSurroundings) ==> {
            &&& v.sig_idx < v.sigs.len()
            &&& v.pat_idx < v.sigs[v.sig_idx as int].aob_patterns.len()
        }
        &&& v.stage == PassStage::Matching ==> v.match_idx <= v.matches.len()
        &&& (v.stage == PassStage::AwaitingDisplacement || v.stage
            == PassStage::AwaitingSurroundings) ==> v.match_idx < v.matches.len()
        &&& v.stage == PassStage::AwaitingDisplacement ==> in_user_space(v.pending)
        &&& v.stage == PassStage::AwaitingSurroundings ==> v.pending >= MIN_VARIABLE_ADDRESS
    }

    /// A pass over `sigs`, about to look for its first pattern.
    pub fn new(sigs: Vec<DiscoverySignature>) -> (p: Self)
        ensures
            p@.sigs == views(sigs@),
            p@.sig_idx == 0,
            p@.pat_idx == 0,
            p@.results == Seq::<ScanResultView>::empty(),
            p@.stage == PassStage::Seeking,
    {
        let p = DiscoveryPass {
            sigs,
            sig_idx: 0,
            pat_idx: 0,
            matches: Vec::new(),
            match_idx: 0,
            pending: 0,
            results: Vec::new(),
            stage: PassStage::Seeking,
        };
        assert(result_views(p.results@) =~= Seq::<ScanResultView>::empty());
        p
    }

    /// Every result held, each of which comes from one of the signatures.
    pub fn results(&self) -> (r: Vec<ScanResult>)
        ensures
            result_views(r@) == self@.results,
            forall|i: int| 0 <= i < r@.len() ==> from_signatures(#[trigger] r@[i]@, self@.sigs),
    {
        proof {
            use_type_invariant(self);
        }
        let mut out: Vec<ScanResult> = Vec::new();
        let n = self.results.len();
        for i in 0..n
            invariant
                n == self.results@.len(),
                out@.len() == i,
                forall|k: int| 0 <= k < i ==> (#[trigger] out@[k])@ == self.results@[k]@,
        {
            let r = &self.results[i];
            out.push(
                ScanResult {
                    address: r.address,
                    value_type: r.value_type,
                    label: match &r.label {
                        Some(l) => Some(l.clone()),
                        None => None,
                    },
                    category: r.category.clone(),
                },
            );
        }
        assert(result_views(out@) =~= self@.results);
        assert forall|i: int| 0 <= i < out@.len() implies from_signatures(
            #[trigger] out@[i]@,
            self@.sigs,
        ) by {
            assert(out@[i]@ == self@.results[i]);
        }
        out
    }

    /// Whether the pass is done.
    pub fn is_finished(&self) -> (r: bool)
        ensures
            r == (self@.stage == PassStage::Finished),
    {
        self.stage == PassStage::Finished
    }

    /// Looks for the next pattern to scan: the first one at or after the
    /// current position that parses. A cancelled pass, or one past its last
    /// signature, finishes; the scanner to run is handed out otherwise.
    pub fn next_pattern(&mut self, cancelled: bool) -> (r: Option<AOBScanner>)
        ensures
            final(self)@.sigs == old(self)@.sigs,
            final(self)@.results == old(self)@.results,
            old(self)@.stage != PassStage::Seeking ==> r is None && final(self)@ == old(self)@,
            old(self)@.stage == PassStage::Seeking && cancelled ==> r is None && final(self)@.stage
                == PassStage::Finished,
            old(self)@.stage == PassStage::Seeking && !cancelled ==> match seek(
                old(self)@.sigs,
                old(self)@.sig_idx,
                old(self)@.pat_idx,
                old(self)@.results.len(),
            ) {
                None => r is None && final(self)@.stage == PassStage::Finished,
                Some((s, p)) => r matches Some(sc) && parse_pattern_spec(
                    old(self)@.sigs[s as int].aob_patterns[p as int],
                ) == Ok::<Seq<Option<u8>>, Seq<char>>(sc@) && final(self)@.stage
                    == PassStage::Scanning && final(self)@.sig_idx == s && final(self)@.pat_idx
                    == p,
            },
    {
        proof {
            use_type_invariant(&*self);
        }
        if self.stage != PassStage::Seeking {
            return None;
        }
        if cancelled {
            self.stage = PassStage::Finished;
            return None;
        }
        let ghost sv = self@.sigs;
        let ghost held = self@.results.len();
        let ghost target = seek(sv, self.sig_idx as nat, self.pat_idx as nat, held);
        let n = self.sigs.len();
        let nres = self.results.len();
        let mut s = self.sig_idx;
        let mut p = self.pat_idx;
        let mut found: Option<AOBScanner> = None;
        while s < n
            invariant_except_break
                target == seek(sv, s as nat, p as nat, held),
                found is None,
            invariant
                n == self.sigs@.len(),
                sv == views(self.sigs@),
                nres == held,
            ensures
                found is None ==> target is None,
                found matches Some(sc) ==> target == Some((s as nat, p as nat)) && s < n && p
                    < sv[s as int].aob_patterns.len() && parse_pattern_spec(
                    sv[s as int].aob_patterns[p as int],
                ) == Ok::<Seq<Option<u8>>, Seq<char>>(sc@),
            decreases n - s, self.sigs@[s as int].aob_patterns@.len() - p,
        {
            let sig = &self.sigs[s];
            proof {
                assert(sv[s as int] == sig@);
                assert(sig@.aob_patterns.len() == sig.aob_patterns@.len());
            }
            if p >= sig.aob_patterns.len() {
                s = s + 1;
                p = 0;
            } else {
                proof {
                    assert(sig@.aob_patterns[p as int] == sig.aob_patterns@[p as int]@);
                }
                match AOBScanner::new(sig.aob_patterns[p].as_str()) {
                    Ok(sc) => {
                        found = Some(sc);
                        break;
                    },
                    Err(_) => {
                        if nres >= PASS_RESULT_CAP {
                            s = s + 1;
                            p = 0;
                        } else {
                            p = p + 1;
                        }
                    },
                }
            }
        }
        match found {
            Some(sc) => {
                self.sig_idx = s;
                self.pat_idx = p;
                self.stage = PassStage::Scanning;
                Some(sc)
            },
            None => {
                self.stage = PassStage::Finished;
                None
            },
        }
    }

    /// Takes the matches of the pattern handed out by `next_pattern`.
    pub fn begin_matches(&mut self, matches: Vec<usize>)
        ensures
            old(self)@.stage == PassStage::Scanning ==> final(self)@ == (PassView {
                matches: matches@,
                match_idx: 0,
                stage: PassStage::Matching,
                ..old(self)@
            }),
            old(self)@.stage != PassStage::Scanning ==> final(self)@ == old(self)@,
    {
        proof {
            use_type_invariant(&*self);
        }
        if self.stage == PassStage::Scanning {
            self.matches = matches;
            self.match_idx = 0;
            self.stage = PassStage::Matching;
        }
    }

    /// The first match from the current one on that asks for a read: its
    /// index, the read, and the address the pass then waits on.
    fn find_request(&self) -> (found: Option<(usize, Probe, usize)>)
        requires
            self@.stage == PassStage::Matching,
            self@.sig_idx < self@.sigs.len(),
            self@.match_idx <= self@.matches.len(),
        ensures
            found is None ==> first_request(
                current_signature(self@),
                self@.matches,
                self@.match_idx,
            ) is None,
            found matches Some((i, r, pending)) ==> {
                let sig = current_signature(self@);
                &&& i < self@.matches.len()
                &&& first_request(sig, self@.matches, self@.match_idx) == Some(i as nat)
                &&& Some(r) == request_at(sig, self@.matches[i as int])
                &&& r matches Probe::ReadDisplacement(loc) ==> pending == loc && in_user_space(loc)
                &&& r matches Probe::ReadSurroundings(_) ==> pending == offset_address(
                    self@.matches[i as int],
                    sig.offset,
                ) && pending >= MIN_VARIABLE_ADDRESS
                &&& !(r is PatternDone)
            },
    {
        let ghost sig = current_signature(self@);
        let ghost start = self.match_idx as nat;
        let n = self.matches.len();
        let s = self.sig_idx;
        let ptr_offset = self.sigs[s].ptr_offset;
        let offset = self.sigs[s].offset;
        let mut i = self.match_idx;
        proof {
            assert(sig == self.sigs@[s as int]@);
        }
        while i < n
            invariant
                n == self.matches@.len(),
                ptr_offset == sig.ptr_offset,
                offset == sig.offset,
                start <= i,
                sig == current_signature(self@),
                start == self@.match_idx,
                first_request(sig, self.matches@, start) == first_request(
                    sig,
                    self.matches@,
                    i as nat,
                ),
            decreases n - i,
        {
            let addr = self.matches[i];
            proof {
                assert(addr == self.matches@[i as int]);
            }
            match ptr_offset {
                Some(off) => {
                    let loc = locate_pointer(addr, off);
                    if user_space(loc) {
                        return Some((i, Probe::ReadDisplacement(loc), loc));
                    }
                },
                None => {
                    let fin = apply_offset(addr, offset);
                    if fin >= MIN_VARIABLE_ADDRESS {
                        let w = if fin >= SURROUNDINGS_BEFORE {
                            fin - SURROUNDINGS_BEFORE
                        } else {
                            0
                        };
                        return Some((i, Probe::ReadSurroundings(w), fin));
                    }
                },
            }
            i = i + 1;
        }
        None
    }

    /// Makes the pass wait, at the match with index `j`, for the read of
    /// `stage` about `pending`.
    fn wait_on(&mut self, j: usize, pending: usize, stage: PassStage)
        requires
            old(self)@.stage == PassStage::Matching,
            j < old(self)@.matches.len(),
            stage == PassStage::AwaitingDisplacement ==> in_user_space(pending),
            stage == PassStage::AwaitingSurroundings ==> pending >= MIN_VARIABLE_ADDRESS,
            stage == PassStage::AwaitingDisplacement || stage == PassStage::AwaitingSurroundings,
        ensures
            final(self)@ == (PassView { match_idx: j as nat, pending, stage, ..old(self)@ }),
    {
        proof {
            use_type_invariant(&*self);
        }
        self.match_idx = j;
        self.pending = pending;
        self.stage = stage;
    }

    /// The position after the current pattern, as `after_pattern` says.
    fn position_after_pattern(&self) -> (r: (usize, usize))
        requires
            self@.sig_idx < self@.sigs.len(),
            self@.pat_idx < self@.sigs[self@.sig_idx as int].aob_patterns.len(),
        ensures
            (r.0 as nat, r.1 as nat) == after_pattern(
                self@.sig_idx,
                self@.pat_idx,
                self@.results.len(),
            ),
    {
        let s = self.sig_idx;
        let p = self.pat_idx;
        let n = self.sigs.len();
        let pats = self.sigs[s].aob_patterns.len();
        proof {
            assert(self.sigs@[s as int]@.aob_patterns.len() == pats);
            assert(s < n);
        }
        if self.results.len() >= PASS_RESULT_CAP {
            (s + 1, 0)
        } else {
            (s, p + 1)
        }
    }

    /// Goes on through the current pattern's matches and says what to read
    /// for the first one that needs a read, or that the pattern is done (no
    /// such match is left, or the pass was cancelled).
    pub fn next_probe(&mut self, cancelled: bool) -> (r: Probe)
        ensures
            old(self)@.stage != PassStage::Matching ==> r == Probe::PatternDone && final(self)@
                == old(self)@,
            old(self)@.stage == PassStage::Matching && (cancelled || first_request(
                current_signature(old(self)@),
                old(self)@.matches,
                old(self)@.match_idx,
            ) is None) ==> r == Probe::PatternDone && pattern_ended(old(self)@, final(self)@),
            old(self)@.stage == PassStage::Matching && !cancelled && first_request(
                current_signature(old(self)@),
                old(self)@.matches,
                old(self)@.match_idx,
            ) is Some ==> probe_taken(
                old(self)@,
                final(self)@,
                first_request(current_signature(old(self)@), old(self)@.matches, old(self)@.match_idx)->0,
                r,
            ),
    {
        proof {
            use_type_invariant(&*self);
        }
        if self.stage != PassStage::Matching {
            return Probe::PatternDone;
        }
        if cancelled {
            let (ns, np) = self.position_after_pattern();
            self.stage = PassStage::Seeking;
            self.sig_idx = ns;
            self.pat_idx = np;
            return Probe::PatternDone;
        }
        let found = self.find_request();
        if found.is_none() {
            let (ns, np) = self.position_after_pattern();
            self.stage = PassStage::Seeking;
            self.sig_idx = ns;
            self.pat_idx = np;
            return Probe::PatternDone;
        }
        let (j, r, wait_on) = found.unwrap();
        let stage = match r {
            Probe::ReadDisplacement(_) => PassStage::AwaitingDisplacement,
            _ => PassStage::AwaitingSurroundings,
        };
        self.wait_on(j, wait_on, stage);
        r
    }

    /// Goes on to the match after the current one.
    fn skip_match(&mut self)
        requires
            old(self)@.stage == PassStage::AwaitingDisplacement || old(self)@.stage
                == PassStage::AwaitingSurroundings,
        ensures
            final(self)@ == (PassView {
                match_idx: old(self)@.match_idx + 1,
                stage: PassStage::Matching,
                ..old(self)@
            }),
    {
        proof {
            use_type_invariant(&*self);
        }
        let n = self.matches.len();
        proof {
            assert(self.match_idx < n);
        }
        self.stage = PassStage::Matching;
        self.match_idx = self.match_idx + 1;
    }

    /// Ends the current pattern.
    fn end_pattern(&mut self)
        requires
            old(self)@.stage == PassStage::AwaitingSurroundings,
        ensures
            pattern_ended(old(self)@, final(self)@),
    {
        proof {
            use_type_invariant(&*self);
        }
        let (ns, np) = self.position_after_pattern();
        self.stage = PassStage::Seeking;
        self.sig_idx = ns;
        self.pat_idx = np;
    }

    /// Keeps a result of the current signature.
    fn keep_result(&mut self, r: ScanResult)
        requires
            from_signatures(r@, old(self)@.sigs),
        ensures
            final(self)@ == (PassView { results: old(self)@.results.push(r@), ..old(self)@ }),
    {
        proof {
            use_type_invariant(&*self);
        }
        let ghost rv = r@;
        let mut held: Vec<ScanResult> = Vec::new();
        std::mem::swap(&mut held, &mut self.results);
        held.push(r);
        proof {
            assert(result_views(held@) =~= old(self)@.results.push(rv));
            assert forall|i: int| 0 <= i < result_views(held@).len() implies from_signatures(
                #[trigger] result_views(held@)[i],
                old(self)@.sigs,
            ) by {
                if i < old(self)@.results.len() {
                    assert(result_views(held@)[i] == old(self)@.results[i]);
                }
            }
        }
        self.results = held;
    }

    /// Takes the displacement read for the current match: `Some` of its four
    /// bytes, or `None` when the read failed. Returns where to read the
    /// surroundings of the address it leads to, when that address is no lower
    /// than `MIN_VARIABLE_ADDRESS`; the pass goes on to the next match
    /// otherwise.
    pub fn on_displacement(&mut self, read: Option<Vec<u8>>) -> (r: Option<usize>)
        ensures
            old(self)@.stage != PassStage::AwaitingDisplacement ==> r is None && final(self)@
                == old(self)@,
            old(self)@.stage == PassStage::AwaitingDisplacement ==> match displacement_outcome(
                current_signature(old(self)@),
                old(self)@.pending,
                read.deep_view(),
            ) {
                Some(fin) => r == Some(window_start(fin)) && final(self)@ == (PassView {
                    pending: fin,
                    stage: PassStage::AwaitingSurroundings,
                    ..old(self)@
                }),
                None => r is None && final(self)@ == (PassView {
                    match_idx: old(self)@.match_idx + 1,
                    stage: PassStage::Matching,
                    ..old(self)@
                }),
            },
    {
        proof {
            use_type_invariant(&*self);
        }
        if self.stage != PassStage::AwaitingDisplacement {
            return None;
        }
        let s = self.sig_idx;
        let offset = self.sigs[s].offset;
        proof {
            assert(current_signature(self@).offset == offset);
        }
        let fin = match &read {
            Some(b) => {
                if b.len() == 4 {
                    let d = displacement_of(b.as_slice());
                    proof {
                        assert(b.deep_view() =~= b@);
                    }
                    let target = follow_rel32(self.pending, d);
                    let f = apply_offset(target, offset);
                    if f >= MIN_VARIABLE_ADDRESS {
                        Some(f)
                    } else {
                        None
                    }
                } else {
                    None
                }
            },
            None => None,
        };
        match fin {
            Some(f) => {
                self.wait_surroundings(f);
                let w = if f >= SURROUNDINGS_BEFORE {
                    f - SURROUNDINGS_BEFORE
                } else {
                    0
                };
                Some(w)
            },
            None => {
                self.skip_match();
                None
            },
        }
    }

    /// Makes the pass wait for the surroundings of `fin`.
    fn wait_surroundings(&mut self, fin: usize)
        requires
            old(self)@.stage == PassStage::AwaitingDisplacement,
            fin >= MIN_VARIABLE_ADDRESS,
        ensures
            final(self)@ == (PassView {
                pending: fin,
                stage: PassStage::AwaitingSurroundings,
                ..old(self)@
            }),
    {
        proof {
            use_type_invariant(&*self);
        }
        self.stage = PassStage::AwaitingSurroundings;
        self.pending = fin;
    }

    /// Takes how many of the bytes around the candidate could be read. With
    /// at least `SURROUNDINGS_BEFORE` of them the candidate is kept as a
    /// result of the current signature; the pattern ends once it holds
    /// `PATTERN_RESULT_CAP` results, and the pass goes on to the next match
    /// otherwise.
    pub fn on_surroundings(&mut self, bytes_read: usize)
        ensures
            old(self)@.stage != PassStage::AwaitingSurroundings ==> final(self)@ == old(self)@,
            old(self)@.stage == PassStage::AwaitingSurroundings && bytes_read < SURROUNDINGS_BEFORE
                ==> final(self)@ == (PassView {
                match_idx: old(self)@.match_idx + 1,
                stage: PassStage::Matching,
                ..old(self)@
            }),
            old(self)@.stage == PassStage::AwaitingSurroundings && bytes_read
                >= SURROUNDINGS_BEFORE ==> {
                let kept = old(self)@.results.push(
                    candidate_result(current_signature(old(self)@), old(self)@.pending),
                );
                &&& final(self)@.results == kept
                &&& final(self)@.sigs == old(self)@.sigs
                &&& kept.len() >= PATTERN_RESULT_CAP ==> final(self)@.stage == PassStage::Seeking
                    && (final(self)@.sig_idx, final(self)@.pat_idx) == after_pattern(
                    old(self)@.sig_idx,
                    old(self)@.pat_idx,
                    kept.len(),
                )
                &&& kept.len() < PATTERN_RESULT_CAP ==> final(self)@ == (PassView {
                    results: kept,
                    match_idx: old(self)@.match_idx + 1,
                    stage: PassStage::Matching,
                    ..old(self)@
                })
            },
    {
        proof {
            use_type_invariant(&*self);
        }
        if self.stage != PassStage::AwaitingSurroundings {
            return;
        }
        if bytes_read < SURROUNDINGS_BEFORE {
            self.skip_match();
            return;
        }
        let s = self.sig_idx;
        let sig = &self.sigs[s];
        let mut label = sig.name.clone();
        push_str(&mut label, " (Ptr Resolved)");
        let r = ScanResult {
            address: self.pending,
            value_type: sig.value_type,
            label: Some(label),
            category: sig.category.clone(),
        };
        proof {
            assert(sig@ == self@.sigs[s as int]);
            assert(r@ == candidate_result(current_signature(self@), self@.pending));
            assert(result_of(r@, self@.sigs[s as int]));
        }
        self.keep_result(r);
        if self.results.len() >= PATTERN_RESULT_CAP {
            self.end_pattern();
        } else {
            self.skip_match();
        }
    }
}


impl DiscoveryEngine {
    /// The "Smart Scan": a pass over every signature the engine knows,
    /// about to look for its first pattern.
    pub fn smart_scan(&self) -> (p: DiscoveryPass)
        ensures
            p@.sigs == self@,
            p@.sig_idx == 0,
            p@.pat_idx == 0,
            p@.results == Seq::<ScanResultView>::empty(),
            p@.stage == PassStage::Seeking,
    {
        DiscoveryPass::new(self.get_signatures())
    }

    /// The targeted scan for `target` in mode `target_type`: a pass over
    /// the signatures of the mode's value type named `target` or aliased so,
    /// ignoring case, about to look for its first pattern. With no such
    /// signature the pass finds nothing.
    pub fn targeted_scan(&self, target: &str, target_type: &str) -> (p: DiscoveryPass)
        ensures
            p@.sigs == select_spec(
                self@,
                unicode_lowercase(target@),
                target_type_spec(target_type@),
            ),
            p@.sig_idx == 0,
            p@.pat_idx == 0,
            p@.results == Seq::<ScanResultView>::empty(),
            p@.stage == PassStage::Seeking,
    {
        DiscoveryPass::new(self.select_targets(target, target_type))
    }
}


/// The signatures that a targeted selection keeps all have the mode's
/// value type and answer to the target.
proof fn lemma_selected_signatures(sigs: Seq<SignatureView>, lower_target: Seq<char>, vt: ValueType)
    ensures
        forall|k: int|
            0 <= k < select_spec(sigs, lower_target, vt).len() ==> (#[trigger] select_spec(
                sigs,
                lower_target,
                vt,
            )[k]).value_type == vt && answers_to(select_spec(sigs, lower_target, vt)[k], lower_target),
    decreases sigs.len(),
{
    if sigs.len() > 0 {
        lemma_selected_signatures(sigs.drop_last(), lower_target, vt);
    }
}

/// Every result of a targeted scan for `target` in mode `target_type` has
/// the value type that the mode names, and comes from a signature known
/// under the target, ignoring case.
pub proof fn lemma_targeted_results_have_mode_type(
    sigs: Seq<SignatureView>,
    target: Seq<char>,
    target_type: Seq<char>,
    r: ScanResultView,
)
    requires
        from_signatures(
            r,
            select_spec(sigs, unicode_lowercase(target), target_type_spec(target_type)),
        ),
    ensures
        r.value_type == target_type_spec(target_type),
        exists|k: int|
            0 <= k < sigs.len() && result_of(r, #[trigger] sigs[k]) && answers_to(
                sigs[k],
                unicode_lowercase(target),
            ),
{
    let lower = unicode_lowercase(target);
    let vt = target_type_spec(target_type);
    let sel = select_spec(sigs, lower, vt);
    lemma_selected_signatures(sigs, lower, vt);
    let k = choose|k: int| 0 <= k < sel.len() && result_of(r, #[trigger] sel[k]);
    assert(sel[k].value_type == vt);
    lemma_selected_come_from(sigs, lower, vt, k);
}

/// Each selected signature is one of the signatures selected from.
proof fn lemma_selected_come_from(sigs: Seq<SignatureView>, lower_target: Seq<char>, vt: ValueType, k: int)
    requires
        0 <= k < select_spec(sigs, lower_target, vt).len(),
    ensures
        exists|j: int| 0 <= j < sigs.len() && #[trigger] sigs[j] == select_spec(sigs, lower_target, vt)[k],
    decreases sigs.len(),
{
    let rest = select_spec(sigs.drop_last(), lower_target, vt);
    if k < rest.len() {
        lemma_selected_come_from(sigs.drop_last(), lower_target, vt, k);
        let j = choose|j: int| 0 <= j < sigs.drop_last().len() && #[trigger] sigs.drop_last()[j] == rest[k];
        assert(sigs[j] == sigs.drop_last()[j]);
    } else {
        assert(sigs[sigs.len() - 1] == sigs.last());
    }
}


/// The pattern text `48 8B 05 ?? ?? ?? ?? 48 8B 88 ?? ?? ?? ?? 89 81` in words.
proof fn lemma_builtin_pattern_0()
    ensures
        parse_pattern_spec("48 8B 05 ?? ?? ?? ?? 48 8B 88 ?? ?? ?? ?? 89 81"@) is Ok,
{
    let toks: Seq<Seq<char>> = seq![seq!['4', '8'], seq!['8', 'B'], seq!['0', '5'], seq!['?', '?'], seq!['?', '?'], seq!['?', '?'], seq!['?', '?'], seq!['4', '8'], seq!['8', 'B'], seq!['8', '8'], seq!['?', '?'], seq!['?', '?'], seq!['?', '?'], seq!['?', '?'], seq!['8', '9'], seq!['8', '1']];
    reveal_strlit("48 8B 05 ?? ?? ?? ?? 48 8B 88 ?? ?? ?? ?? 89 81");
    reveal_with_fuel(join_ws, 17);
    assert("48 8B 05 ?? ?? ?? ?? 48 8B 88 ?? ?? ?? ?? 89 81"@ =~= join_ws(toks));
    assert forall|i: int| 0 <= i < toks.len() implies simple_token(#[trigger] toks[i]) by {}
    lemma_simple_pattern_parses(toks);
}

/// The pattern text `F3 0F 10 40 ?? F3 0F 5C 44 24 ?? 0F 2F 05` in words.
proof fn lemma_builtin_pattern_1()
    ensures
        parse_pattern_spec("F3 0F 10 40 ?? F3 0F 5C 44 24 ?? 0F 2F 05"@) is Ok,
{
    let toks: Seq<Seq<char>> = seq![seq!['F', '3'], seq!['0', 'F'], seq!['1', '0'], seq!['4', '0'], seq!['?', '?'], seq!['F', '3'], seq!['0', 'F'], seq!['5', 'C'], seq!['4', '4'], seq!['2', '4'], seq!['?', '?'], seq!['0', 'F'], seq!['2', 'F'], seq!['0', '5']];
    reveal_strlit("F3 0F 10 40 ?? F3 0F 5C 44 24 ?? 0F 2F 05");
    reveal_with_fuel(join_ws, 15);
    assert("F3 0F 10 40 ?? F3 0F 5C 44 24 ?? 0F 2F 05"@ =~= join_ws(toks));
    assert forall|i: int| 0 <= i < toks.len() implies simple_token(#[trigger] toks[i]) by {}
    lemma_simple_pattern_parses(toks);
}

/// The pattern text `F2 0F 10 ?? ?? ?? ?? ?? F3 0F 5C ?? ?? ?? ?? ??` in words.
proof fn lemma_builtin_pattern_2()
    ensures
        parse_pattern_spec("F2 0F 10 ?? ?? ?? ?? ?? F3 0F 5C ?? ?? ?? ?? ??"@) is Ok,
{
    let toks: Seq<Seq<char>> = seq![seq!['F', '2'], seq!['0', 'F'], seq!['1', '0'], seq!['?', '?'], seq!['?', '?'], seq!['?', '?'], seq!['?', '?'], seq!['?', '?'], seq!['F', '3'], seq!['0', 'F'], seq!['5', 'C'], seq!['?', '?'], seq!['?', '?'], seq!['?', '?'], seq!['?', '?'], seq!['?', '?']];
    reveal_strlit("F2 0F 10 ?? ?? ?? ?? ?? F3 0F 5C ?? ?? ?? ?? ??");
    reveal_with_fuel(join_ws, 17);
    assert("F2 0F 10 ?? ?? ?? ?? ?? F3 0F 5C ?? ?? ?? ?? ??"@ =~= join_ws(toks));
    assert forall|i: int| 0 <= i < toks.len() implies simple_token(#[trigger] toks[i]) by {}
    lemma_simple_pattern_parses(toks);
}

/// The pattern text `66 8B ?? ?? ?? ?? ?? 66 89 ?? ?? ?? ?? ??` in words.
proof fn lemma_builtin_pattern_3()
    ensures
        parse_pattern_spec("66 8B ?? ?? ?? ?? ?? 66 89 ?? ?? ?? ?? ??"@) is Ok,
{
    let toks: Seq<Seq<char>> = seq![seq!['6', '6'], seq!['8', 'B'], seq!['?', '?'], seq!['?', '?'], seq!['?', '?'], seq!['?', '?'], seq!['?', '?'], seq!['6', '6'], seq!['8', '9'], seq!['?', '?'], seq!['?', '?'], seq!['?', '?'], seq!['?', '?'], seq!['?', '?']];
    reveal_strlit("66 8B ?? ?? ?? ?? ?? 66 89 ?? ?? ?? ?? ??");
    reveal_with_fuel(join_ws, 15);
    assert("66 8B ?? ?? ?? ?? ?? 66 89 ?? ?? ?? ?? ??"@ =~= join_ws(toks));
    assert forall|i: int| 0 <= i < toks.len() implies simple_token(#[trigger] toks[i]) by {}
    lemma_simple_pattern_parses(toks);
}

/// The pattern text `48 8B 05 ?? ?? ?? ?? 48 8B 48 ?? 48 8B 01` in words.
proof fn lemma_builtin_pattern_4()
    ensures
        parse_pattern_spec("48 8B 05 ?? ?? ?? ?? 48 8B 48 ?? 48 8B 01"@) is Ok,
{
    let toks: Seq<Seq<char>> = seq![seq!['4', '8'], seq!['8', 'B'], seq!['0', '5'], seq!['?', '?'], seq!['?', '?'], seq!['?', '?'], seq!['?', '?'], seq!['4', '8'], seq!['8', 'B'], seq!['4', '8'], seq!['?', '?'], seq!['4', '8'], seq!['8', 'B'], seq!['0', '1']];
    reveal_strlit("48 8B 05 ?? ?? ?? ?? 48 8B 48 ?? 48 8B 01");
    reveal_with_fuel(join_ws, 15);
    assert("48 8B 05 ?? ?? ?? ?? 48 8B 48 ?? 48 8B 01"@ =~= join_ws(toks));
    assert forall|i: int| 0 <= i < toks.len() implies simple_token(#[trigger] toks[i]) by {}
    lemma_simple_pattern_parses(toks);
}

/// The pattern text `F2 0F 10 05 ?? ?? ?? ?? F2 0F 58 44 24` in words.
proof fn lemma_builtin_pattern_5()
    ensures
        parse_pattern_spec("F2 0F 10 05 ?? ?? ?? ?? F2 0F 58 44 24"@) is Ok,
{
    let toks: Seq<Seq<char>> = seq![seq!['F', '2'], seq!['0', 'F'], seq!['1', '0'], seq!['0', '5'], seq!['?', '?'], seq!['?', '?'], seq!['?', '?'], seq!['?', '?'], seq!['F', '2'], seq!['0', 'F'], seq!['5', '8'], seq!['4', '4'], seq!['2', '4']];
    reveal_strlit("F2 0F 10 05 ?? ?? ?? ?? F2 0F 58 44 24");
    reveal_with_fuel(join_ws, 14);
    assert("F2 0F 10 05 ?? ?? ?? ?? F2 0F 58 44 24"@ =~= join_ws(toks));
    assert forall|i: int| 0 <= i < toks.len() implies simple_token(#[trigger] toks[i]) by {}
    lemma_simple_pattern_parses(toks);
}

/// No built-in pattern is skipped for failing to parse: every pattern of
/// every signature that a new engine knows parses.
pub proof fn lemma_builtin_patterns_parse()
    ensures
        forall|s: int, p: int|
            0 <= s < builtin_signatures().len() && 0 <= p < builtin_signatures()[s].aob_patterns.len()
                ==> #[trigger] parse_pattern_spec(builtin_signatures()[s].aob_patterns[p]) is Ok,
{
    lemma_builtin_pattern_0();
    lemma_builtin_pattern_1();
    lemma_builtin_pattern_2();
    lemma_builtin_pattern_3();
    lemma_builtin_pattern_4();
    lemma_builtin_pattern_5();
    assert forall|s: int, p: int|
        0 <= s < builtin_signatures().len() && 0 <= p < builtin_signatures()[s].aob_patterns.len()
            implies #[trigger] parse_pattern_spec(builtin_signatures()[s].aob_patterns[p]) is Ok by {
        assert(p == 0);
    }
}


/// A targeted selection keeps exactly the signatures, among those it
/// selects from, of the mode's value type that are known under the target
/// ignoring case: whose name, or one of whose aliases, lowercases to it.
pub proof fn lemma_selection_is_exact(
    sigs: Seq<SignatureView>,
    lower_target: Seq<char>,
    vt: ValueType,
    s: SignatureView,
)
    ensures
        select_spec(sigs, lower_target, vt).contains(s) <==> {
            &&& sigs.contains(s)
            &&& s.value_type == vt
            &&& (unicode_lowercase(s.name) == lower_target || exists|i: int|
                0 <= i < s.aliases.len() && unicode_lowercase(s.aliases[i]) == lower_target)
        },
    decreases sigs.len(),
{
    if sigs.len() > 0 {
        let front = sigs.drop_last();
        lemma_selection_is_exact(front, lower_target, vt, s);
        assert(sigs =~= front.push(sigs.last()));
        let rest = select_spec(front, lower_target, vt);
        if sigs.contains(s) && !front.contains(s) {
            let j = choose|j: int| 0 <= j < sigs.len() && sigs[j] == s;
            if j < front.len() {
                assert(front[j] == s);
            }
            assert(s == sigs.last());
        }
        if front.contains(s) {
            let j = choose|j: int| 0 <= j < front.len() && front[j] == s;
            assert(sigs[j] == s);
        }
        if sigs.last().value_type == vt && answers_to(sigs.last(), lower_target) {
            assert(rest.push(sigs.last())[rest.len() as int] == sigs.last());
            if rest.contains(s) {
                let j = choose|j: int| 0 <= j < rest.len() && rest[j] == s;
                assert(rest.push(sigs.last())[j] == s);
            }
            if rest.push(sigs.last()).contains(s) && s != sigs.last() {
                let j = choose|j: int| 0 <= j < rest.len() + 1 && rest.push(sigs.last())[j] == s;
                assert(j < rest.len());
                assert(rest[j] == s);
            }
        }
    } else {
        assert(!select_spec(sigs, lower_target, vt).contains(s));
    }
}

/// The built-in money signature of type `Int32` is selected by a targeted
/// scan for "Money" in mode `Int32`.
pub proof fn lemma_money_is_found_by_name()
    ensures
        select_spec(builtin_signatures(), unicode_lowercase("Money"@), ValueType::Int32).contains(
            builtin_signatures()[4],
        ),
{
    let sigs = builtin_signatures();
    assert(sigs[4].name == "Money"@);
    assert(sigs.contains(sigs[4]));
    lemma_selection_is_exact(sigs, unicode_lowercase("Money"@), ValueType::Int32, sigs[4]);
}

} // verus!
