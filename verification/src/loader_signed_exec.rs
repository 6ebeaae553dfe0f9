//! Loader exec manifest signing: the `clan-exec-v1` manifest format, its
//! canonical signed body, and the Ed25519 check against the loader trust anchor.
//!
//! A manifest is UTF-8 text of `\n`-separated lines (a trailing `\r` on a line is
//! ignored). The first line is the magic `clan-exec-v1`; then come `key=value`
//! lines, empty lines, `#` comments and at most one effective
//! `sig=ed25519:<128 lower-case hex digits>` line. Later lines override earlier ones.
use ed25519_dalek::{PublicKey, Signature, Verifier};
use vstd::prelude::*;
use vstd::string::StringSliceAdditionalSpecFns;

verus! {

/// First line of every manifest.
pub open spec fn manifest_magic() -> Seq<u8> {
    "clan-exec-v1".spec_bytes()
}

/// The only trust level a signed manifest may carry.
pub open spec fn trust_signed() -> Seq<u8> {
    "system-signed".spec_bytes()
}

/// Epoch-460 loader trust anchor (Ed25519 public key).
pub const EPOCH460_LOADER_PUBLIC_KEY: [u8; 32] = [
    0x4b, 0x4f, 0x7b, 0xa3, 0xcc, 0xbb, 0xd8, 0xc3, 0x24, 0x76, 0xf9, 0xb7, 0x15, 0x14, 0x99,
    0x5b, 0x16, 0xab, 0xcc, 0x6e, 0xc5, 0x1c, 0xde, 0xab, 0x71, 0x69, 0xf1, 0x1e, 0x13, 0xc4,
    0x92, 0xeb,
];

/// Why a signed exec was refused.
#[derive(Debug, Clone, Copy, PartialEq, Eq, Structural)]
pub enum VerifyError {
    ManifestParse,
    MissingSignature,
    DigestMismatch,
    SignatureInvalid,
}

impl VerifyError {
    /// Human-readable reason.
    pub fn as_str(self) -> (r: &'static str)
        ensures
            r@ == (match self {
                VerifyError::ManifestParse => "manifest parse"@,
                VerifyError::MissingSignature => "manifest missing sig=ed25519"@,
                VerifyError::DigestMismatch => "payload digest mismatch"@,
                VerifyError::SignatureInvalid => "signature verify failed"@,
            }),
    {
        match self {
            VerifyError::ManifestParse => "manifest parse",
            VerifyError::MissingSignature => "manifest missing sig=ed25519",
            VerifyError::DigestMismatch => "payload digest mismatch",
            VerifyError::SignatureInvalid => "signature verify failed",
        }
    }
}

// ---------------------------------------------------------------------------
// Byte-range scanning over the manifest text.

/// First index in `[i, hi)` holding `b`, or `hi`.
pub open spec fn find_byte(s: Seq<u8>, i: int, hi: int, b: u8) -> int
    decreases hi - i,
{
    if i >= hi {
        hi
    } else if s[i] == b {
        i
    } else {
        find_byte(s, i + 1, hi, b)
    }
}

/// End of the range `[lo, hi)` once every trailing `\r` is dropped.
pub open spec fn trim_cr(s: Seq<u8>, lo: int, hi: int) -> int
    decreases hi - lo,
{
    if hi > lo && s[hi - 1] == 13 {
        trim_cr(s, lo, hi - 1)
    } else {
        hi
    }
}

/// An ASCII whitespace byte (tab, line feed, vertical tab, form feed, carriage return, space).
pub open spec fn is_ws1(b: u8) -> bool {
    b == 9 || b == 10 || b == 11 || b == 12 || b == 13 || b == 32
}

/// The UTF-8 encoding `a b c` is a three-byte Unicode whitespace character
/// (U+1680, U+2000..U+200A, U+2028, U+2029, U+202F, U+205F, U+3000).
pub open spec fn is_ws3(a: u8, b: u8, c: u8) -> bool {
    ||| (a == 0xE1 && b == 0x9A && c == 0x80)
    ||| (a == 0xE2 && b == 0x80 && ((0x80 <= c && c <= 0x8A) || c == 0xA8 || c == 0xA9 || c == 0xAF))
    ||| (a == 0xE2 && b == 0x81 && c == 0x9F)
    ||| (a == 0xE3 && b == 0x80 && c == 0x80)
}

/// The two-byte Unicode whitespace characters U+0085 and U+00A0.
pub open spec fn is_ws2(a: u8, b: u8) -> bool {
    a == 0xC2 && (b == 0x85 || b == 0xA0)
}

/// Length in bytes of the whitespace character that opens `[lo, hi)`, or 0.
pub open spec fn lead_ws(s: Seq<u8>, lo: int, hi: int) -> int {
    if hi - lo >= 1 && is_ws1(s[lo]) {
        1
    } else if hi - lo >= 2 && is_ws2(s[lo], s[lo + 1]) {
        2
    } else if hi - lo >= 3 && is_ws3(s[lo], s[lo + 1], s[lo + 2]) {
        3
    } else {
        0
    }
}

/// Length in bytes of the whitespace character that closes `[lo, hi)`, or 0.
pub open spec fn trail_ws(s: Seq<u8>, lo: int, hi: int) -> int {
    if hi - lo >= 1 && is_ws1(s[hi - 1]) {
        1
    } else if hi - lo >= 2 && is_ws2(s[hi - 2], s[hi - 1]) {
        2
    } else if hi - lo >= 3 && is_ws3(s[hi - 3], s[hi - 2], s[hi - 1]) {
        3
    } else {
        0
    }
}

/// Start of `[lo, hi)` once leading whitespace is dropped.
pub open spec fn trim_start(s: Seq<u8>, lo: int, hi: int) -> int
    decreases hi - lo,
{
    if lead_ws(s, lo, hi) > 0 && lo < hi {
        trim_start(s, lo + lead_ws(s, lo, hi), hi)
    } else {
        lo
    }
}

/// End of `[lo, hi)` once trailing whitespace is dropped.
pub open spec fn trim_end(s: Seq<u8>, lo: int, hi: int) -> int
    decreases hi - lo,
{
    if trail_ws(s, lo, hi) > 0 && lo < hi {
        trim_end(s, lo, hi - trail_ws(s, lo, hi))
    } else {
        hi
    }
}

/// `[lo, hi)` with whitespace dropped at both ends, as a range.
pub open spec fn trim(s: Seq<u8>, lo: int, hi: int) -> (int, int) {
    let a = trim_start(s, lo, hi);
    (a, trim_end(s, a, hi))
}

/// A lower-case hexadecimal digit.
pub open spec fn is_lower_hex(b: u8) -> bool {
    (48 <= b && b <= 57) || (97 <= b && b <= 102)
}

/// Every byte of `[lo, hi)` is a lower-case hexadecimal digit.
pub open spec fn all_lower_hex(s: Seq<u8>, lo: int, hi: int) -> bool {
    forall|k: int| lo <= k < hi ==> #[trigger] is_lower_hex(s[k])
}

/// `[lo, hi)` begins with `p`.
pub open spec fn starts_with_at(s: Seq<u8>, lo: int, hi: int, p: Seq<u8>) -> bool {
    p.len() <= hi - lo && s.subrange(lo, lo + p.len()) == p
}

proof fn lemma_find_byte_bounds(s: Seq<u8>, i: int, hi: int, b: u8)
    requires
        i <= hi,
    ensures
        i <= find_byte(s, i, hi, b) <= hi,
        find_byte(s, i, hi, b) < hi ==> s[find_byte(s, i, hi, b)] == b,
    decreases hi - i,
{
    if i < hi && s[i] != b {
        lemma_find_byte_bounds(s, i + 1, hi, b);
    }
}

pub(crate) proof fn lemma_trim_cr_bounds(s: Seq<u8>, lo: int, hi: int)
    requires
        lo <= hi,
    ensures
        lo <= trim_cr(s, lo, hi) <= hi,
    decreases hi - lo,
{
    if hi > lo && s[hi - 1] == 13 {
        lemma_trim_cr_bounds(s, lo, hi - 1);
    }
}

proof fn lemma_trim_bounds(s: Seq<u8>, lo: int, hi: int)
    requires
        lo <= hi,
    ensures
        lo <= trim_start(s, lo, hi) <= hi,
        lo <= trim_end(s, lo, hi) <= hi,
        lo <= trim(s, lo, hi).0 <= trim(s, lo, hi).1 <= hi,
    decreases hi - lo,
{
    if lead_ws(s, lo, hi) > 0 && lo < hi {
        lemma_trim_bounds(s, lo + lead_ws(s, lo, hi), hi);
    }
    if trail_ws(s, lo, hi) > 0 && lo < hi {
        lemma_trim_bounds(s, lo, hi - trail_ws(s, lo, hi));
    }
    let a = trim_start(s, lo, hi);
    lemma_trim_end_bounds(s, a, hi);
}

proof fn lemma_trim_end_bounds(s: Seq<u8>, lo: int, hi: int)
    requires
        lo <= hi,
    ensures
        lo <= trim_end(s, lo, hi) <= hi,
    decreases hi - lo,
{
    if trail_ws(s, lo, hi) > 0 && lo < hi {
        lemma_trim_end_bounds(s, lo, hi - trail_ws(s, lo, hi));
    }
}

fn find_byte_exec(s: &[u8], lo: usize, hi: usize, b: u8) -> (r: usize)
    requires
        lo <= hi <= s@.len(),
    ensures
        r == find_byte(s@, lo as int, hi as int, b),
        lo <= r <= hi,
{
    proof {
        lemma_find_byte_bounds(s@, lo as int, hi as int, b);
    }
    let mut i = lo;
    while i < hi
        invariant
            lo <= i <= hi,
            hi <= s@.len(),
            find_byte(s@, lo as int, hi as int, b) == find_byte(s@, i as int, hi as int, b),
        decreases hi - i,
    {
        if s[i] == b {
            return i;
        }
        i += 1;
    }
    i
}

fn trim_cr_exec(s: &[u8], lo: usize, hi: usize) -> (r: usize)
    requires
        lo <= hi <= s@.len(),
    ensures
        r == trim_cr(s@, lo as int, hi as int),
        lo <= r <= hi,
{
    let mut h = hi;
    while h > lo && s[h - 1] == 13
        invariant
            lo <= h <= hi,
            hi <= s@.len(),
            trim_cr(s@, lo as int, hi as int) == trim_cr(s@, lo as int, h as int),
        decreases h,
    {
        h -= 1;
    }
    h
}

fn is_ws1_exec(b: u8) -> (r: bool)
    ensures
        r == is_ws1(b),
{
    b == 9 || b == 10 || b == 11 || b == 12 || b == 13 || b == 32
}

fn is_ws2_exec(a: u8, b: u8) -> (r: bool)
    ensures
        r == is_ws2(a, b),
{
    a == 0xC2 && (b == 0x85 || b == 0xA0)
}

fn is_ws3_exec(a: u8, b: u8, c: u8) -> (r: bool)
    ensures
        r == is_ws3(a, b, c),
{
    (a == 0xE1 && b == 0x9A && c == 0x80) || (a == 0xE2 && b == 0x80 && ((0x80 <= c && c
        <= 0x8A) || c == 0xA8 || c == 0xA9 || c == 0xAF)) || (a == 0xE2 && b == 0x81 && c
        == 0x9F) || (a == 0xE3 && b == 0x80 && c == 0x80)
}

fn lead_ws_exec(s: &[u8], lo: usize, hi: usize) -> (r: usize)
    requires
        lo <= hi <= s@.len(),
    ensures
        r == lead_ws(s@, lo as int, hi as int),
        r <= hi - lo,
{
    let n = hi - lo;
    if n >= 1 && is_ws1_exec(s[lo]) {
        1
    } else if n >= 2 && is_ws2_exec(s[lo], s[lo + 1]) {
        2
    } else if n >= 3 && is_ws3_exec(s[lo], s[lo + 1], s[lo + 2]) {
        3
    } else {
        0
    }
}

fn trail_ws_exec(s: &[u8], lo: usize, hi: usize) -> (r: usize)
    requires
        lo <= hi <= s@.len(),
    ensures
        r == trail_ws(s@, lo as int, hi as int),
        r <= hi - lo,
{
    let n = hi - lo;
    if n >= 1 && is_ws1_exec(s[hi - 1]) {
        1
    } else if n >= 2 && is_ws2_exec(s[hi - 2], s[hi - 1]) {
        2
    } else if n >= 3 && is_ws3_exec(s[hi - 3], s[hi - 2], s[hi - 1]) {
        3
    } else {
        0
    }
}

fn trim_exec(s: &[u8], lo: usize, hi: usize) -> (r: (usize, usize))
    requires
        lo <= hi <= s@.len(),
    ensures
        r.0 as int == trim(s@, lo as int, hi as int).0,
        r.1 as int == trim(s@, lo as int, hi as int).1,
        lo <= r.0 <= r.1 <= hi,
{
    proof {
        lemma_trim_bounds(s@, lo as int, hi as int);
    }
    let mut a = lo;
    let mut n = lead_ws_exec(s, a, hi);
    while n > 0
        invariant
            lo <= a <= hi,
            hi <= s@.len(),
            n == lead_ws(s@, a as int, hi as int),
            n <= hi - a,
            trim_start(s@, lo as int, hi as int) == trim_start(s@, a as int, hi as int),
        decreases hi - a,
    {
        a = a + n;
        n = lead_ws_exec(s, a, hi);
    }
    let mut b = hi;
    let mut m = trail_ws_exec(s, a, b);
    while m > 0
        invariant
            lo <= a <= b <= hi,
            hi <= s@.len(),
            a as int == trim_start(s@, lo as int, hi as int),
            m == trail_ws(s@, a as int, b as int),
            m <= b - a,
            trim_end(s@, a as int, hi as int) == trim_end(s@, a as int, b as int),
        decreases b - a,
    {
        b = b - m;
        m = trail_ws_exec(s, a, b);
    }
    (a, b)
}

fn all_lower_hex_exec(s: &[u8], lo: usize, hi: usize) -> (r: bool)
    requires
        lo <= hi <= s@.len(),
    ensures
        r == all_lower_hex(s@, lo as int, hi as int),
{
    let mut i = lo;
    while i < hi
        invariant
            lo <= i <= hi,
            hi <= s@.len(),
            forall|k: int| lo <= k < i ==> #[trigger] is_lower_hex(s@[k]),
        decreases hi - i,
    {
        let b = s[i];
        if !((48 <= b && b <= 57) || (97 <= b && b <= 102)) {
            assert(!is_lower_hex(s@[i as int]));
            return false;
        }
        i += 1;
    }
    true
}

/// Whether `[lo, hi)` of `s` holds exactly the bytes of `p`.
fn range_is(s: &[u8], lo: usize, hi: usize, p: &[u8]) -> (r: bool)
    requires
        lo <= hi <= s@.len(),
    ensures
        r == (s@.subrange(lo as int, hi as int) == p@),
{
    if hi - lo != p.len() {
        assert(s@.subrange(lo as int, hi as int).len() != p@.len());
        return false;
    }
    let mut i: usize = 0;
    while i < p.len()
        invariant
            hi - lo == p@.len(),
            lo <= hi <= s@.len(),
            i <= p@.len(),
            forall|k: int| 0 <= k < i ==> s@[lo + k] == p@[k],
        decreases p@.len() - i,
    {
        if s[lo + i] != p[i] {
            assert(s@.subrange(lo as int, hi as int)[i as int] != p@[i as int]);
            return false;
        }
        i += 1;
    }
    assert(s@.subrange(lo as int, hi as int) =~= p@);
    true
}

/// Whether `[lo, hi)` of `s` begins with the bytes of `p`.
fn starts_with_exec(s: &[u8], lo: usize, hi: usize, p: &[u8]) -> (r: bool)
    requires
        lo <= hi <= s@.len(),
    ensures
        r == starts_with_at(s@, lo as int, hi as int, p@),
{
    if p.len() > hi - lo {
        return false;
    }
    range_is(s, lo, lo + p.len(), p)
}

fn copy_range(s: &[u8], lo: usize, hi: usize) -> (r: Vec<u8>)
    requires
        lo <= hi <= s@.len(),
    ensures
        r@ == s@.subrange(lo as int, hi as int),
{
    let mut out: Vec<u8> = Vec::new();
    let mut i = lo;
    while i < hi
        invariant
            lo <= i <= hi,
            hi <= s@.len(),
            out@ == s@.subrange(lo as int, i as int),
        decreases hi - i,
    {
        out.push(s[i]);
        i += 1;
        assert(out@ =~= s@.subrange(lo as int, i as int));
    }
    out
}

// ---------------------------------------------------------------------------
// The line-by-line parse.

/// Where each field's value lies in the manifest text, once found.
#[derive(Clone, Copy, Debug)]
pub struct Slots {
    pub name: Option<(usize, usize)>,
    pub kind: Option<(usize, usize)>,
    pub entry: Option<(usize, usize)>,
    pub image: Option<(usize, usize)>,
    pub requires: Option<(usize, usize)>,
    pub digest: Option<(usize, usize)>,
    pub trust: Option<(usize, usize)>,
    pub sig: Option<(usize, usize)>,
}

/// No field found yet.
pub open spec fn empty_slots() -> Slots {
    Slots {
        name: None,
        kind: None,
        entry: None,
        image: None,
        requires: None,
        digest: None,
        trust: None,
        sig: None,
    }
}

/// The bytes of a range.
pub open spec fn range_bytes(s: Seq<u8>, r: (usize, usize)) -> Seq<u8> {
    s.subrange(r.0 as int, r.1 as int)
}

/// A range as a slot value.
pub open spec fn slot(r: (int, int)) -> Option<(usize, usize)> {
    Some((r.0 as usize, r.1 as usize))
}

/// The effect of one `key=value` line whose key is `[ka, kb)` and value `[va, vb)`.
pub open spec fn apply_field(s: Seq<u8>, ka: int, kb: int, va: int, vb: int, st: Slots) -> Option<Slots> {
    let key = s.subrange(ka, kb);
    let val = s.subrange(va, vb);
    let tv = trim(s, va, vb);
    if key == "name".spec_bytes() && va < vb {
        Some(Slots { name: slot(tv), ..st })
    } else if key == "kind".spec_bytes() && (val == "builtin-alias".spec_bytes() || val
        == "elf64-image".spec_bytes()) {
        Some(Slots { kind: slot(tv), ..st })
    } else if key == "entry".spec_bytes() && va < vb {
        Some(Slots { entry: slot(tv), ..st })
    } else if key == "image".spec_bytes() && va < vb {
        Some(Slots { image: slot(tv), ..st })
    } else if key == "requires".spec_bytes() && val == "execute".spec_bytes() {
        Some(Slots { requires: slot(tv), ..st })
    } else if key == "digest".spec_bytes() {
        let p = "sha256:".spec_bytes();
        if starts_with_at(s, tv.0, tv.1, p) && tv.1 - (tv.0 + p.len()) == 64 && all_lower_hex(
            s,
            tv.0 + p.len(),
            tv.1,
        ) {
            Some(Slots { digest: slot((tv.0 + p.len(), tv.1)), ..st })
        } else {
            None
        }
    } else if key == "trust".spec_bytes() && val == trust_signed() {
        Some(Slots { trust: slot(tv), ..st })
    } else if key == "owner".spec_bytes() || key == "description".spec_bytes() {
        Some(st)
    } else {
        None
    }
}

/// The effect of the line `[lo, hi0)` (without its line feed): `None` when the
/// line makes the manifest invalid.
pub open spec fn apply_line(s: Seq<u8>, lo: int, hi0: int, st: Slots) -> Option<Slots> {
    let hi = trim_cr(s, lo, hi0);
    let p = "sig=ed25519:".spec_bytes();
    if hi == lo || s[lo] == 35 {
        Some(st)
    } else if starts_with_at(s, lo, hi, p) {
        let h = trim(s, lo + p.len(), hi);
        if h.1 - h.0 == 128 && all_lower_hex(s, h.0, h.1) {
            Some(Slots { sig: slot(h), ..st })
        } else {
            None
        }
    } else {
        let eq = find_byte(s, lo, hi, 61);
        if eq == hi {
            None
        } else {
            let k = trim(s, lo, eq);
            apply_field(s, k.0, k.1, eq + 1, hi, st)
        }
    }
}

/// The lines from `pos` (the start of a line) to the end, applied in order.
pub open spec fn fold_lines(s: Seq<u8>, pos: int, st: Slots) -> Option<Slots>
    decreases s.len() + 1 - pos,
{
    if pos < 0 || pos > s.len() {
        None
    } else {
        let e = find_byte(s, pos, s.len() as int, 10);
        match apply_line(s, pos, e, st) {
            None => None,
            Some(st2) => if e >= s.len() || e < pos {
                Some(st2)
            } else {
                fold_lines(s, e + 1, st2)
            },
        }
    }
}

/// Every required field was found, and an `elf64-image` names its image.
pub open spec fn slots_complete(s: Seq<u8>, st: Slots) -> bool {
    &&& st.name is Some
    &&& st.kind is Some
    &&& st.entry is Some
    &&& st.requires is Some
    &&& st.digest is Some
    &&& st.trust is Some
    &&& !(range_bytes(s, st.kind->Some_0) == "elf64-image".spec_bytes() && st.image is None)
}

/// Where the fields of manifest text `s` lie, or `None` when `s` is no valid manifest.
pub open spec fn manifest_slots(s: Seq<u8>) -> Option<Slots> {
    let e = find_byte(s, 0, s.len() as int, 10);
    let h = trim_cr(s, 0, e);
    if s.subrange(0, h) != manifest_magic() {
        None
    } else {
        let r = if e >= s.len() {
            Some(empty_slots())
        } else {
            fold_lines(s, e + 1, empty_slots())
        };
        match r {
            Some(st) => if slots_complete(s, st) {
                Some(st)
            } else {
                None
            },
            None => None,
        }
    }
}

/// A parsed `clan-exec-v1` manifest; each field holds the bytes of its value.
#[derive(Debug, Clone)]
pub struct ParsedExecManifest {
    pub name: Vec<u8>,
    pub kind: Vec<u8>,
    pub entry: Vec<u8>,
    pub image: Option<Vec<u8>>,
    pub digest_hex: Vec<u8>,
    pub trust: Vec<u8>,
    pub signature_hex: Option<Vec<u8>>,
}

/// `m` holds the values that the slots `st` locate in text `s`.
pub open spec fn holds_slots(m: ParsedExecManifest, s: Seq<u8>, st: Slots) -> bool {
    &&& m.name@ == range_bytes(s, st.name->Some_0)
    &&& m.kind@ == range_bytes(s, st.kind->Some_0)
    &&& m.entry@ == range_bytes(s, st.entry->Some_0)
    &&& (m.image is Some <==> st.image is Some)
    &&& (st.image is Some ==> m.image->Some_0@ == range_bytes(s, st.image->Some_0))
    &&& m.digest_hex@ == range_bytes(s, st.digest->Some_0)
    &&& m.trust@ == range_bytes(s, st.trust->Some_0)
    &&& (m.signature_hex is Some <==> st.sig is Some)
    &&& (st.sig is Some ==> m.signature_hex->Some_0@ == range_bytes(s, st.sig->Some_0))
}

/// Every slot is a range inside `s`.
pub open spec fn slots_in(s: Seq<u8>, st: Slots) -> bool {
    &&& range_in(s, st.name)
    &&& range_in(s, st.kind)
    &&& range_in(s, st.entry)
    &&& range_in(s, st.image)
    &&& range_in(s, st.requires)
    &&& range_in(s, st.digest)
    &&& range_in(s, st.trust)
    &&& range_in(s, st.sig)
    &&& (st.sig matches Some(p) ==> p.1 - p.0 == 128 && all_lower_hex(s, p.0 as int, p.1 as int))
}

proof fn lemma_lower_hex_subrange(s: Seq<u8>, a: int, b: int)
    requires
        0 <= a <= b <= s.len(),
        all_lower_hex(s, a, b),
    ensures
        all_lower_hex(s.subrange(a, b), 0, b - a),
{
    assert forall|k: int| 0 <= k < b - a implies #[trigger] is_lower_hex(s.subrange(a, b)[k]) by {
        assert(s.subrange(a, b)[k] == s[a + k]);
        assert(is_lower_hex(s[a + k]));
    }
}

/// An absent slot, or a range inside `s`.
pub open spec fn range_in(s: Seq<u8>, r: Option<(usize, usize)>) -> bool {
    r matches Some(p) ==> p.0 <= p.1 <= s.len()
}

fn opt_copy(s: &[u8], r: Option<(usize, usize)>) -> (o: Option<Vec<u8>>)
    requires
        range_in(s@, r),
    ensures
        o is Some <==> r is Some,
        r is Some ==> o->Some_0@ == range_bytes(s@, r->Some_0),
{
    match r {
        Some(p) => Some(copy_range(s, p.0, p.1)),
        None => None,
    }
}

/// Applies one `key=value` line.
fn apply_field_exec(s: &[u8], ka: usize, kb: usize, va: usize, vb: usize, st: Slots) -> (r: Option<Slots>)
    requires
        ka <= kb <= s@.len(),
        va <= vb <= s@.len(),
        slots_in(s@, st),
    ensures
        r == apply_field(s@, ka as int, kb as int, va as int, vb as int, st),
        r matches Some(st2) ==> slots_in(s@, st2),
{
    let tv = trim_exec(s, va, vb);
    let some_val = va < vb;
    if range_is(s, ka, kb, "name".as_bytes()) && some_val {
        Some(Slots { name: Some(tv), ..st })
    } else if range_is(s, ka, kb, "kind".as_bytes()) && (range_is(
        s,
        va,
        vb,
        "builtin-alias".as_bytes(),
    ) || range_is(s, va, vb, "elf64-image".as_bytes())) {
        Some(Slots { kind: Some(tv), ..st })
    } else if range_is(s, ka, kb, "entry".as_bytes()) && some_val {
        Some(Slots { entry: Some(tv), ..st })
    } else if range_is(s, ka, kb, "image".as_bytes()) && some_val {
        Some(Slots { image: Some(tv), ..st })
    } else if range_is(s, ka, kb, "requires".as_bytes()) && range_is(
        s,
        va,
        vb,
        "execute".as_bytes(),
    ) {
        Some(Slots { requires: Some(tv), ..st })
    } else if range_is(s, ka, kb, "digest".as_bytes()) {
        let p = "sha256:".as_bytes();
        if starts_with_exec(s, tv.0, tv.1, p) {
            let ha = tv.0 + p.len();
            if tv.1 - ha == 64 && all_lower_hex_exec(s, ha, tv.1) {
                Some(Slots { digest: Some((ha, tv.1)), ..st })
            } else {
                None
            }
        } else {
            None
        }
    } else if range_is(s, ka, kb, "trust".as_bytes()) && range_is(
        s,
        va,
        vb,
        "system-signed".as_bytes(),
    ) {
        Some(Slots { trust: Some(tv), ..st })
    } else if range_is(s, ka, kb, "owner".as_bytes()) || range_is(
        s,
        ka,
        kb,
        "description".as_bytes(),
    ) {
        Some(st)
    } else {
        None
    }
}

/// Applies the line `[lo, hi0)`.
fn apply_line_exec(s: &[u8], lo: usize, hi0: usize, st: Slots) -> (r: Option<Slots>)
    requires
        lo <= hi0 <= s@.len(),
        slots_in(s@, st),
    ensures
        r == apply_line(s@, lo as int, hi0 as int, st),
        r matches Some(st2) ==> slots_in(s@, st2),
{
    let hi = trim_cr_exec(s, lo, hi0);
    let p = "sig=ed25519:".as_bytes();
    if hi == lo || s[lo] == 35 {
        Some(st)
    } else if starts_with_exec(s, lo, hi, p) {
        let h = trim_exec(s, lo + p.len(), hi);
        if h.1 - h.0 == 128 && all_lower_hex_exec(s, h.0, h.1) {
            Some(Slots { sig: Some(h), ..st })
        } else {
            None
        }
    } else {
        let eq = find_byte_exec(s, lo, hi, 61);
        if eq == hi {
            None
        } else {
            let k = trim_exec(s, lo, eq);
            apply_field_exec(s, k.0, k.1, eq + 1, hi, st)
        }
    }
}

/// Parses manifest text. `Ok` exactly when the text is a valid manifest; the
/// result then holds the value of each field (the last occurrence of a field wins).
pub fn parse_manifest(manifest_text: &str) -> (r: Result<ParsedExecManifest, VerifyError>)
    ensures
        r is Ok <==> manifest_slots(manifest_text.spec_bytes()) is Some,
        r matches Ok(m) ==> holds_slots(m, manifest_text.spec_bytes(), manifest_slots(manifest_text.spec_bytes())->Some_0),
        r matches Err(e) ==> e == VerifyError::ManifestParse,
        r matches Ok(m) ==> (m.signature_hex matches Some(h) ==> h@.len() == 128 && all_lower_hex(h@, 0, 128)),
{
    let s = manifest_text.as_bytes();
    let ghost sv = s@;
    let e = find_byte_exec(s, 0, s.len(), 10);
    let h = trim_cr_exec(s, 0, e);
    if !range_is(s, 0, h, "clan-exec-v1".as_bytes()) {
        return Err(VerifyError::ManifestParse);
    }
    let mut st = Slots {
        name: None,
        kind: None,
        entry: None,
        image: None,
        requires: None,
        digest: None,
        trust: None,
        sig: None,
    };
    let ghost target = if e >= s.len() {
        Some(empty_slots())
    } else {
        fold_lines(sv, (e + 1) as int, empty_slots())
    };
    assert(manifest_slots(sv) == (match target {
        Some(t) => if slots_complete(sv, t) {
            Some(t)
        } else {
            None
        },
        None => None,
    }));
    if e < s.len() {
        let mut pos = e + 1;
        loop
            invariant_except_break
                fold_lines(s@, pos as int, st) == target,
            invariant
                sv == s@,
                sv == manifest_text.spec_bytes(),
                0 <= pos <= s@.len(),
                manifest_slots(sv) == (match target {
                    Some(t) => if slots_complete(sv, t) {
                        Some(t)
                    } else {
                        None
                    },
                    None => None,
                }),
                slots_in(s@, st),
            ensures
                target == Some(st),
                slots_in(s@, st),
            decreases s@.len() + 1 - pos,
        {
            let le = find_byte_exec(s, pos, s.len(), 10);
            match apply_line_exec(s, pos, le, st) {
                None => {
                    assert(fold_lines(s@, pos as int, st) is None);
                    return Err(VerifyError::ManifestParse);
                },
                Some(st2) => {
                    st = st2;
                    if le >= s.len() {
                        break ;
                    }
                    pos = le + 1;
                },
            }
        }
    }
    assert(target == Some(st));
    let complete = st.name.is_some() && st.kind.is_some() && st.entry.is_some()
        && st.requires.is_some() && st.digest.is_some() && st.trust.is_some();
    if !complete {
        return Err(VerifyError::ManifestParse);
    }
    let kind = st.kind.unwrap();
    if range_is(s, kind.0, kind.1, "elf64-image".as_bytes()) && st.image.is_none() {
        return Err(VerifyError::ManifestParse);
    }
    let name = st.name.unwrap();
    let entry = st.entry.unwrap();
    let digest = st.digest.unwrap();
    let trust = st.trust.unwrap();
    proof {
        if st.sig is Some {
            let p = st.sig->Some_0;
            lemma_lower_hex_subrange(s@, p.0 as int, p.1 as int);
        }
    }
    Ok(
        ParsedExecManifest {
            name: copy_range(s, name.0, name.1),
            kind: copy_range(s, kind.0, kind.1),
            entry: copy_range(s, entry.0, entry.1),
            image: opt_copy(s, st.image),
            digest_hex: copy_range(s, digest.0, digest.1),
            trust: copy_range(s, trust.0, trust.1),
            signature_hex: opt_copy(s, st.sig),
        },
    )
}

// ---------------------------------------------------------------------------
// The signed body and the signature check.

/// The canonical signed body of a manifest with the given fields and payload digest.
pub open spec fn signed_body(
    name: Seq<u8>,
    kind: Seq<u8>,
    entry: Seq<u8>,
    image: Option<Seq<u8>>,
    digest_hex: Seq<u8>,
) -> Seq<u8> {
    let image_line = if kind == "elf64-image".spec_bytes() && image is Some {
        "image=".spec_bytes() + image->Some_0 + "\n".spec_bytes()
    } else {
        Seq::empty()
    };
    manifest_magic() + "\nname=".spec_bytes() + name + "\nkind=".spec_bytes() + kind
        + "\nentry=".spec_bytes() + entry + "\n".spec_bytes() + image_line
        + "requires=execute\ndigest=sha256:".spec_bytes() + digest_hex + "\ntrust=".spec_bytes()
        + trust_signed() + "\n".spec_bytes()
}

fn append_bytes(out: &mut Vec<u8>, p: &[u8])
    ensures
        final(out)@ == old(out)@ + p@,
{
    out.extend_from_slice(p);
    assert(final(out)@ =~= old(out)@ + p@);
}

/// The bytes the loader signs for `manifest` with payload digest `digest_hex`:
/// magic, name, kind, entry, the image line for `elf64-image` manifests,
/// `requires=execute`, the digest and the signed trust level, one per line.
pub fn canonical_signed_body_bytes(manifest: &ParsedExecManifest, digest_hex: &[u8]) -> (r: Vec<u8>)
    ensures
        r@ == signed_body(
            manifest.name@,
            manifest.kind@,
            manifest.entry@,
            match manifest.image {
                Some(i) => Some(i@),
                None => None,
            },
            digest_hex@,
        ),
{
    let mut out: Vec<u8> = Vec::new();
    append_bytes(&mut out, "clan-exec-v1".as_bytes());
    append_bytes(&mut out, "\nname=".as_bytes());
    append_bytes(&mut out, manifest.name.as_slice());
    append_bytes(&mut out, "\nkind=".as_bytes());
    append_bytes(&mut out, manifest.kind.as_slice());
    append_bytes(&mut out, "\nentry=".as_bytes());
    append_bytes(&mut out, manifest.entry.as_slice());
    append_bytes(&mut out, "\n".as_bytes());
    let ghost before_image = out@;
    let is_image = range_is(manifest.kind.as_slice(), 0, manifest.kind.len(), "elf64-image".as_bytes());
    proof {
        assert(manifest.kind@.subrange(0, manifest.kind@.len() as int) =~= manifest.kind@);
    }
    if is_image {
        match &manifest.image {
            Some(image) => {
                append_bytes(&mut out, "image=".as_bytes());
                append_bytes(&mut out, image.as_slice());
                append_bytes(&mut out, "\n".as_bytes());
            },
            None => {},
        }
    }
    append_bytes(&mut out, "requires=execute\ndigest=sha256:".as_bytes());
    append_bytes(&mut out, digest_hex);
    append_bytes(&mut out, "\ntrust=".as_bytes());
    append_bytes(&mut out, "system-signed".as_bytes());
    append_bytes(&mut out, "\n".as_bytes());
    out
}

/// Value of a lower-case hexadecimal digit.
pub open spec fn hex_value(b: u8) -> int {
    if 48 <= b && b <= 57 {
        b - 48
    } else {
        b - 97 + 10
    }
}

/// Value of a hexadecimal digit byte; upper-case digits are refused.
pub fn hex_nibble(byte: u8) -> (r: Result<u8, ()>)
    ensures
        r is Ok <==> is_lower_hex(byte),
        r matches Ok(v) ==> v == hex_value(byte),
{
    if 48 <= byte && byte <= 57 {
        Ok(byte - 48)
    } else if 97 <= byte && byte <= 102 {
        Ok(byte - 97 + 10)
    } else {
        Err(())
    }
}

/// The bytes that the hex digits `hex` (two per byte) stand for.
pub open spec fn hex_decoded(hex: Seq<u8>) -> Seq<u8> {
    Seq::new(hex.len() / 2, |i: int| (hex_value(hex[2 * i]) * 16 + hex_value(hex[2 * i + 1])) as u8)
}

/// Decodes `2 * n` lower-case hex digits into `n` bytes; `Err` on any other input.
pub fn decode_hex(hex: &[u8], n: usize) -> (r: Result<Vec<u8>, ()>)
    ensures
        r is Ok <==> (hex@.len() == 2 * n && all_lower_hex(hex@, 0, hex@.len() as int)),
        r matches Ok(v) ==> v@ == hex_decoded(hex@) && v@.len() == n,
{
    if hex.len() % 2 != 0 || hex.len() / 2 != n {
        return Err(());
    }
    let mut out: Vec<u8> = Vec::new();
    let mut i: usize = 0;
    while i < n
        invariant
            hex@.len() == 2 * n,
            2 * n <= usize::MAX,
            i <= n,
            out@.len() == i,
            all_lower_hex(hex@, 0, 2 * i),
            forall|k: int| 0 <= k < i ==> #[trigger] out@[k] == (hex_value(hex@[2 * k]) * 16 + hex_value(hex@[2 * k + 1])) as u8,
        decreases n - i,
    {
        let hi = match hex_nibble(hex[2 * i]) {
            Ok(v) => v,
            Err(()) => {
                return Err(());
            },
        };
        let lo = match hex_nibble(hex[2 * i + 1]) {
            Ok(v) => v,
            Err(()) => {
                return Err(());
            },
        };
        out.push(hi * 16 + lo);
        proof {
            assert forall|k: int| 0 <= k < 2 * (i + 1) implies #[trigger] is_lower_hex(hex@[k]) by {
                if k < 2 * i {
                    assert(is_lower_hex(hex@[k]));
                }
            }
        }
        i += 1;
    }
    assert(out@ =~= hex_decoded(hex@));
    Ok(out)
}

/// Whether `signature` is a valid Ed25519 signature of `message` under the
/// public key `public_key`: a function of the three byte strings alone.
pub uninterp spec fn ed25519_verifies(public_key: Seq<u8>, message: Seq<u8>, signature: Seq<u8>) -> bool;

/// Runs `ed25519_dalek::PublicKey::from_bytes` on `public_key`,
/// `ed25519::Signature::from_bytes` on `signature`, and
/// `<PublicKey as ed25519_dalek::Verifier<Signature>>::verify` on `message`, and
/// tells whether all three succeeded. Claimed: the answer is
/// `ed25519_verifies` of the three byte strings, and a signature accepted this
/// way is 64 bytes long with the top three bits of its last byte clear (the
/// check `Signature::from_bytes` makes). The key's point decompression and the
/// curve arithmetic of `verify` are not stated.
#[verifier::external_body]
fn ed25519_verify(public_key: &[u8; 32], message: &[u8], signature: &[u8]) -> (r: bool)
    ensures
        r == ed25519_verifies(public_key@, message@, signature@),
        r ==> signature@.len() == 64 && signature@[63] & 0xE0 == 0,
{
    let key = match PublicKey::from_bytes(public_key) {
        Ok(k) => k,
        Err(_) => return false,
    };
    let sig = match Signature::from_bytes(signature) {
        Ok(s) => s,
        Err(_) => return false,
    };
    key.verify(message, &sig).is_ok()
}

/// The outcome of checking a manifest whose fields lie at `st` in text `s`,
/// for a payload whose SHA-256 digest is `actual_digest_hex`.
pub open spec fn signed_exec_outcome(s: Seq<u8>, actual_digest_hex: Seq<u8>) -> Result<(), VerifyError> {
    match manifest_slots(s) {
        None => Err(VerifyError::ManifestParse),
        Some(st) => if st.sig is None {
            Err(VerifyError::MissingSignature)
        } else if actual_digest_hex != range_bytes(s, st.digest->Some_0) {
            Err(VerifyError::DigestMismatch)
        } else {
            let body = signed_body(
                range_bytes(s, st.name->Some_0),
                range_bytes(s, st.kind->Some_0),
                range_bytes(s, st.entry->Some_0),
                match st.image {
                    Some(i) => Some(range_bytes(s, i)),
                    None => None,
                },
                actual_digest_hex,
            );
            let sig = hex_decoded(range_bytes(s, st.sig->Some_0));
            if ed25519_verifies(EPOCH460_LOADER_PUBLIC_KEY@, body, sig) {
                Ok(())
            } else {
                Err(VerifyError::SignatureInvalid)
            }
        },
    }
}

/// Verifies a `clan-exec-v1` manifest against the epoch-460 loader anchor, for
/// a payload whose SHA-256 digest (lower-case hex) is `actual_digest_hex`: the
/// manifest must parse, carry a signature, name that digest, and its signature
/// must verify over the canonical signed body.
pub fn verify_signed_exec(manifest_text: &str, actual_digest_hex: &[u8]) -> (r: Result<(), VerifyError>)
    ensures
        r == signed_exec_outcome(manifest_text.spec_bytes(), actual_digest_hex@),
{
    let ghost s = manifest_text.spec_bytes();
    let manifest = match parse_manifest(manifest_text) {
        Ok(m) => m,
        Err(e) => {
            return Err(e);
        },
    };
    let ghost st = manifest_slots(s)->Some_0;
    let signature_hex = match &manifest.signature_hex {
        Some(h) => h,
        None => {
            return Err(VerifyError::MissingSignature);
        },
    };
    if !range_is(actual_digest_hex, 0, actual_digest_hex.len(), manifest.digest_hex.as_slice()) {
        proof {
            assert(actual_digest_hex@.subrange(0, actual_digest_hex@.len() as int) =~= actual_digest_hex@);
        }
        return Err(VerifyError::DigestMismatch);
    }
    proof {
        assert(actual_digest_hex@.subrange(0, actual_digest_hex@.len() as int) =~= actual_digest_hex@);
    }
    let body = canonical_signed_body_bytes(&manifest, actual_digest_hex);
    let signature = match decode_hex(signature_hex.as_slice(), 64) {
        Ok(v) => v,
        Err(()) => {
            return Err(VerifyError::SignatureInvalid);
        },
    };
    if ed25519_verify(&EPOCH460_LOADER_PUBLIC_KEY, body.as_slice(), signature.as_slice()) {
        Ok(())
    } else {
        Err(VerifyError::SignatureInvalid)
    }
}

} // verus!
