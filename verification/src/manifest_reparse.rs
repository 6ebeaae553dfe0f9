//! The canonical signed body of a parsed manifest is itself a manifest, and
//! parsing it gives back the signed fields.
use vstd::prelude::*;
use vstd::string::StringSliceAdditionalSpecFns;

use crate::loader_signed_exec::{
    all_lower_hex, apply_field, apply_line, empty_slots, find_byte, fold_lines, is_lower_hex, is_ws1, lead_ws,
    manifest_slots, range_bytes, trail_ws, trim, trim_cr, trim_end, trim_start, holds_slots, signed_body, slots_complete,
    ParsedExecManifest, Slots,
};

verus! {

/// A slot, when found, is a range of `s` holding no line feed and, when not
/// empty, neither starting nor ending with whitespace.
pub open spec fn clean_range(s: Seq<u8>, r: Option<(usize, usize)>) -> bool {
    r matches Some(p) ==> {
        &&& p.0 <= p.1 <= s.len()
        &&& forall|k: int| p.0 <= k < p.1 ==> #[trigger] s[k] != 10
        &&& p.0 < p.1 ==> lead_ws(s, p.0 as int, p.1 as int) == 0 && trail_ws(s, p.0 as int, p.1 as int) == 0
    }
}

/// The kind names a manifest accepts.
pub open spec fn known_kind(v: Seq<u8>) -> bool {
    v == "builtin-alias".spec_bytes() || v == "elf64-image".spec_bytes()
}

/// The value slots the signed body carries are clean, the kind is a known
/// one and the digest is 64 lower-case hex digits.
pub open spec fn clean_slots(s: Seq<u8>, st: Slots) -> bool {
    &&& clean_range(s, st.name)
    &&& clean_range(s, st.kind)
    &&& clean_range(s, st.entry)
    &&& clean_range(s, st.image)
    &&& (st.kind matches Some(p) ==> known_kind(range_bytes(s, p)))
    &&& (st.digest matches Some(p) ==> p.0 <= p.1 <= s.len() && p.1 - p.0 == 64 && all_lower_hex(s, p.0 as int, p.1 as int))
}

/// The bytes of the two kind names.
proof fn lemma_kind_literals()
    ensures
        "builtin-alias".spec_bytes() == seq![98u8, 117, 105, 108, 116, 105, 110, 45, 97, 108, 105, 97, 115],
        "elf64-image".spec_bytes() == seq![101u8, 108, 102, 54, 52, 45, 105, 109, 97, 103, 101],
{
    reveal_strlit("builtin-alias");
    vstd::string::is_ascii_spec_bytes("builtin-alias");
    assert("builtin-alias".spec_bytes() =~= seq![98u8, 117, 105, 108, 116, 105, 110, 45, 97, 108, 105, 97, 115]);
    reveal_strlit("elf64-image");
    vstd::string::is_ascii_spec_bytes("elf64-image");
    assert("elf64-image".spec_bytes() =~= seq![101u8, 108, 102, 54, 52, 45, 105, 109, 97, 103, 101]);
}

/// The bytes of a literal of the manifest format.
proof fn lemma_lit_sig()
    ensures
        "sig=ed25519:".spec_bytes() == seq![115u8, 105, 103, 61, 101, 100, 50, 53, 53, 49, 57, 58],
{
    reveal_strlit("sig=ed25519:");
    vstd::string::is_ascii_spec_bytes("sig=ed25519:");
    assert("sig=ed25519:".spec_bytes() =~= seq![115u8, 105, 103, 61, 101, 100, 50, 53, 53, 49, 57, 58]);
}

proof fn lemma_lit_name()
    ensures
        "name".spec_bytes() == seq![110u8, 97, 109, 101],
{
    reveal_strlit("name");
    vstd::string::is_ascii_spec_bytes("name");
    assert("name".spec_bytes() =~= seq![110u8, 97, 109, 101]);
}

proof fn lemma_lit_kind()
    ensures
        "kind".spec_bytes() == seq![107u8, 105, 110, 100],
{
    reveal_strlit("kind");
    vstd::string::is_ascii_spec_bytes("kind");
    assert("kind".spec_bytes() =~= seq![107u8, 105, 110, 100]);
}

proof fn lemma_lit_entry()
    ensures
        "entry".spec_bytes() == seq![101u8, 110, 116, 114, 121],
{
    reveal_strlit("entry");
    vstd::string::is_ascii_spec_bytes("entry");
    assert("entry".spec_bytes() =~= seq![101u8, 110, 116, 114, 121]);
}

proof fn lemma_lit_image()
    ensures
        "image".spec_bytes() == seq![105u8, 109, 97, 103, 101],
{
    reveal_strlit("image");
    vstd::string::is_ascii_spec_bytes("image");
    assert("image".spec_bytes() =~= seq![105u8, 109, 97, 103, 101]);
}

proof fn lemma_lit_requires()
    ensures
        "requires".spec_bytes() == seq![114u8, 101, 113, 117, 105, 114, 101, 115],
{
    reveal_strlit("requires");
    vstd::string::is_ascii_spec_bytes("requires");
    assert("requires".spec_bytes() =~= seq![114u8, 101, 113, 117, 105, 114, 101, 115]);
}

proof fn lemma_lit_execute()
    ensures
        "execute".spec_bytes() == seq![101u8, 120, 101, 99, 117, 116, 101],
{
    reveal_strlit("execute");
    vstd::string::is_ascii_spec_bytes("execute");
    assert("execute".spec_bytes() =~= seq![101u8, 120, 101, 99, 117, 116, 101]);
}

proof fn lemma_lit_digest()
    ensures
        "digest".spec_bytes() == seq![100u8, 105, 103, 101, 115, 116],
{
    reveal_strlit("digest");
    vstd::string::is_ascii_spec_bytes("digest");
    assert("digest".spec_bytes() =~= seq![100u8, 105, 103, 101, 115, 116]);
}

proof fn lemma_lit_trust()
    ensures
        "trust".spec_bytes() == seq![116u8, 114, 117, 115, 116],
{
    reveal_strlit("trust");
    vstd::string::is_ascii_spec_bytes("trust");
    assert("trust".spec_bytes() =~= seq![116u8, 114, 117, 115, 116]);
}

proof fn lemma_lit_system_signed()
    ensures
        "system-signed".spec_bytes() == seq![115u8, 121, 115, 116, 101, 109, 45, 115, 105, 103, 110, 101, 100],
{
    reveal_strlit("system-signed");
    vstd::string::is_ascii_spec_bytes("system-signed");
    assert("system-signed".spec_bytes() =~= seq![115u8, 121, 115, 116, 101, 109, 45, 115, 105, 103, 110, 101, 100]);
}

proof fn lemma_lit_magic()
    ensures
        "clan-exec-v1".spec_bytes() == seq![99u8, 108, 97, 110, 45, 101, 120, 101, 99, 45, 118, 49],
{
    reveal_strlit("clan-exec-v1");
    vstd::string::is_ascii_spec_bytes("clan-exec-v1");
    assert("clan-exec-v1".spec_bytes() =~= seq![99u8, 108, 97, 110, 45, 101, 120, 101, 99, 45, 118, 49]);
}

proof fn lemma_lit_sha()
    ensures
        "sha256:".spec_bytes() == seq![115u8, 104, 97, 50, 53, 54, 58],
{
    reveal_strlit("sha256:");
    vstd::string::is_ascii_spec_bytes("sha256:");
    assert("sha256:".spec_bytes() =~= seq![115u8, 104, 97, 50, 53, 54, 58]);
}

proof fn lemma_lit_nl_name()
    ensures
        "\nname=".spec_bytes() == seq![10u8, 110, 97, 109, 101, 61],
{
    reveal_strlit("\nname=");
    vstd::string::is_ascii_spec_bytes("\nname=");
    assert("\nname=".spec_bytes() =~= seq![10u8, 110, 97, 109, 101, 61]);
}

proof fn lemma_lit_nl_kind()
    ensures
        "\nkind=".spec_bytes() == seq![10u8, 107, 105, 110, 100, 61],
{
    reveal_strlit("\nkind=");
    vstd::string::is_ascii_spec_bytes("\nkind=");
    assert("\nkind=".spec_bytes() =~= seq![10u8, 107, 105, 110, 100, 61]);
}

proof fn lemma_lit_nl_entry()
    ensures
        "\nentry=".spec_bytes() == seq![10u8, 101, 110, 116, 114, 121, 61],
{
    reveal_strlit("\nentry=");
    vstd::string::is_ascii_spec_bytes("\nentry=");
    assert("\nentry=".spec_bytes() =~= seq![10u8, 101, 110, 116, 114, 121, 61]);
}

proof fn lemma_lit_nl()
    ensures
        "\n".spec_bytes() == seq![10u8],
{
    reveal_strlit("\n");
    vstd::string::is_ascii_spec_bytes("\n");
    assert("\n".spec_bytes() =~= seq![10u8]);
}

proof fn lemma_lit_image_eq()
    ensures
        "image=".spec_bytes() == seq![105u8, 109, 97, 103, 101, 61],
{
    reveal_strlit("image=");
    vstd::string::is_ascii_spec_bytes("image=");
    assert("image=".spec_bytes() =~= seq![105u8, 109, 97, 103, 101, 61]);
}

proof fn lemma_lit_req_digest()
    ensures
        "requires=execute\ndigest=sha256:".spec_bytes() == seq![114u8, 101, 113, 117, 105, 114, 101, 115, 61, 101, 120, 101, 99, 117, 116, 101, 10, 100, 105, 103, 101, 115, 116, 61, 115, 104, 97, 50, 53, 54, 58],
{
    reveal_strlit("requires=execute\ndigest=sha256:");
    vstd::string::is_ascii_spec_bytes("requires=execute\ndigest=sha256:");
    assert("requires=execute\ndigest=sha256:".spec_bytes() =~= seq![114u8, 101, 113, 117, 105, 114, 101, 115, 61, 101, 120, 101, 99, 117, 116, 101, 10, 100, 105, 103, 101, 115, 116, 61, 115, 104, 97, 50, 53, 54, 58]);
}

proof fn lemma_lit_nl_trust()
    ensures
        "\ntrust=".spec_bytes() == seq![10u8, 116, 114, 117, 115, 116, 61],
{
    reveal_strlit("\ntrust=");
    vstd::string::is_ascii_spec_bytes("\ntrust=");
    assert("\ntrust=".spec_bytes() =~= seq![10u8, 116, 114, 117, 115, 116, 61]);
}

/// A `key=value` line.
pub open spec fn kv_line(k: Seq<u8>, v: Seq<u8>) -> Seq<u8> {
    k + seq![61u8] + v + seq![10u8]
}

/// Bytes `v` hold no line feed.
pub open spec fn no_lf(v: Seq<u8>) -> bool {
    forall|i: int| 0 <= i < v.len() ==> #[trigger] v[i] != 10
}

/// A key of the format: lower-case letters only.
pub open spec fn plain_key(k: Seq<u8>) -> bool {
    &&& k.len() > 0
    &&& forall|i: int| 0 <= i < k.len() ==> 97 <= #[trigger] k[i] <= 122
}

proof fn lemma_find_byte_at(s: Seq<u8>, i: int, hi: int, b: u8, j: int)
    requires
        i <= j < hi,
        s[j] == b,
        forall|k: int| i <= k < j ==> s[k] != b,
    ensures
        find_byte(s, i, hi, b) == j,
    decreases j - i,
{
    if i < j {
        lemma_find_byte_at(s, i + 1, hi, b, j);
    }
}

/// The end of the text reads as no line at all.
proof fn lemma_fold_end(s: Seq<u8>, st: Slots)
    ensures
        fold_lines(s, s.len() as int, st) == Some(st),
{
    assert(find_byte(s, s.len() as int, s.len() as int, 10) == s.len());
    assert(trim_cr(s, s.len() as int, s.len() as int) == s.len());
}

/// Whitespace at the ends of a range depends only on its bytes.
proof fn lemma_ws_shift(s: Seq<u8>, a: int, v: Seq<u8>)
    requires
        0 <= a,
        a + v.len() <= s.len(),
        forall|i: int| 0 <= i < v.len() ==> s[a + i] == #[trigger] v[i],
    ensures
        lead_ws(s, a, a + v.len()) == lead_ws(v, 0, v.len() as int),
        trail_ws(s, a, a + v.len()) == trail_ws(v, 0, v.len() as int),
{
    let n = v.len() as int;
    if n >= 1 {
        assert(s[a] == v[0] && s[a + n - 1] == v[n - 1]);
    }
    if n >= 2 {
        assert(s[a + 1] == v[1] && s[a + n - 2] == v[n - 2]);
    }
    if n >= 3 {
        assert(s[a + 2] == v[2] && s[a + n - 3] == v[n - 3]);
    }
}

/// Where the bytes of a `key=value` line sit in the text.
pub open spec fn line_at(s: Seq<u8>, pos: int, k: Seq<u8>, v: Seq<u8>) -> bool {
    let eq = pos + k.len();
    let end = eq + 1 + v.len();
    &&& 0 <= pos
    &&& end < s.len()
    &&& forall|i: int| 0 <= i < k.len() ==> s[pos + i] == #[trigger] k[i]
    &&& s[eq] == 61
    &&& forall|i: int| 0 <= i < v.len() ==> s[eq + 1 + i] == #[trigger] v[i]
    &&& s[end] == 10
}

proof fn lemma_line_bytes(s: Seq<u8>, pre: Seq<u8>, k: Seq<u8>, v: Seq<u8>, rest: Seq<u8>)
    requires
        s == pre + (kv_line(k, v) + rest),
    ensures
        s == (pre + kv_line(k, v)) + rest,
        line_at(s, pre.len() as int, k, v),
{
    let pos = pre.len() as int;
    let l = kv_line(k, v);
    assert(s =~= (pre + l) + rest);
    assert forall|i: int| 0 <= i < k.len() implies s[pos + i] == #[trigger] k[i] by {
        assert(l[i] == k[i]);
    }
    assert(l[k.len() as int] == 61);
    assert forall|i: int| 0 <= i < v.len() implies s[pos + k.len() + 1 + i] == #[trigger] v[i] by {
        assert(l[k.len() + 1 + i] == v[i]);
    }
    assert(l[(k.len() + 1 + v.len()) as int] == 10);
}

/// One `key=value` line at `pos`: the parse applies its field and goes on
/// after its line feed.
proof fn lemma_line_step(s: Seq<u8>, pos: int, k: Seq<u8>, v: Seq<u8>, st: Slots)
    requires
        line_at(s, pos, k, v),
        plain_key(k),
        k[0] != 115,
        v.len() > 0,
        no_lf(v),
        trail_ws(v, 0, v.len() as int) == 0,
    ensures
        ({
            let eq = pos + k.len();
            let end = eq + 1 + v.len();
            &&& fold_lines(s, pos, st) == match apply_field(s, pos, eq, eq + 1, end, st) {
                None => None,
                Some(st2) => fold_lines(s, end + 1, st2),
            }
            &&& s.subrange(pos, eq) == k
            &&& s.subrange(eq + 1, end) == v
            &&& lead_ws(s, eq + 1, end) == lead_ws(v, 0, v.len() as int)
            &&& trail_ws(s, eq + 1, end) == 0
        }),
{
    let eq = pos + k.len();
    let end = eq + 1 + v.len();
    assert(find_byte(s, pos, s.len() as int, 10) == end) by {
        assert forall|j: int| pos <= j < end implies s[j] != 10 by {
            if j < eq {
                assert(s[j] == k[j - pos]);
            } else if j > eq {
                assert(s[j] == v[j - eq - 1]);
            }
        }
        lemma_find_byte_at(s, pos, s.len() as int, 10, end);
    }
    lemma_ws_shift(s, eq + 1, v);
    assert(trim_cr(s, pos, end) == end) by {
        assert(s[end - 1] == v[v.len() - 1]);
        assert(!is_ws1(v[v.len() - 1]));
    }
    assert(s[pos] == k[0]);
    assert(!crate::loader_signed_exec::starts_with_at(s, pos, end, "sig=ed25519:".spec_bytes())) by {
        lemma_lit_sig();
        if crate::loader_signed_exec::starts_with_at(s, pos, end, "sig=ed25519:".spec_bytes()) {
            assert(s.subrange(pos, pos + 12)[0] == s[pos]);
        }
    }
    assert(find_byte(s, pos, end, 61) == eq) by {
        assert forall|j: int| pos <= j < eq implies s[j] != 61 by {
            assert(s[j] == k[j - pos]);
            assert(97 <= k[j - pos] <= 122);
        }
        lemma_find_byte_at(s, pos, end, 61, eq);
    }
    assert(trim(s, pos, eq) == (pos, eq)) by {
        lemma_ws_shift(s, pos, k);
        assert(97 <= k[0] <= 122 && 97 <= k[k.len() - 1] <= 122);
    }
    assert(apply_line(s, pos, end, st) == apply_field(s, pos, eq, eq + 1, end, st));
    assert(s.subrange(pos, eq) =~= k);
    assert(s.subrange(eq + 1, end) =~= v);
}

proof fn lemma_field_name(s: Seq<u8>, ka: int, kb: int, va: int, vb: int, st: Slots)
    requires
        0 <= ka <= kb <= s.len(),
        0 <= va < vb <= s.len(),
        s.len() <= usize::MAX,
        s.subrange(ka, kb) == "name".spec_bytes(),
        lead_ws(s, va, vb) == 0,
        trail_ws(s, va, vb) == 0,
    ensures
        apply_field(s, ka, kb, va, vb, st) == Some(Slots { name: Some((va as usize, vb as usize)), ..st }),
{
    lemma_lit_name();

    lemma_trim_fixed(s, va, vb);
}

proof fn lemma_field_kind(s: Seq<u8>, ka: int, kb: int, va: int, vb: int, st: Slots)
    requires
        0 <= ka <= kb <= s.len(),
        0 <= va < vb <= s.len(),
        s.len() <= usize::MAX,
        s.subrange(ka, kb) == "kind".spec_bytes(),
        known_kind(s.subrange(va, vb)),
        lead_ws(s, va, vb) == 0,
        trail_ws(s, va, vb) == 0,
    ensures
        apply_field(s, ka, kb, va, vb, st) == Some(Slots { kind: Some((va as usize, vb as usize)), ..st }),
{
    lemma_lit_name();
    lemma_lit_kind();
    lemma_kind_literals();
    assert(s.subrange(ka, kb) != "name".spec_bytes()) by {
        assert(s.subrange(ka, kb)[0] != "name".spec_bytes()[0] || s.subrange(ka, kb).len() != "name".spec_bytes().len());
    }
    lemma_trim_fixed(s, va, vb);
}

proof fn lemma_field_entry(s: Seq<u8>, ka: int, kb: int, va: int, vb: int, st: Slots)
    requires
        0 <= ka <= kb <= s.len(),
        0 <= va < vb <= s.len(),
        s.len() <= usize::MAX,
        s.subrange(ka, kb) == "entry".spec_bytes(),
        lead_ws(s, va, vb) == 0,
        trail_ws(s, va, vb) == 0,
    ensures
        apply_field(s, ka, kb, va, vb, st) == Some(Slots { entry: Some((va as usize, vb as usize)), ..st }),
{
    lemma_lit_name();
    lemma_lit_kind();
    lemma_lit_entry();
    assert(s.subrange(ka, kb) != "name".spec_bytes()) by {
        assert(s.subrange(ka, kb)[0] != "name".spec_bytes()[0] || s.subrange(ka, kb).len() != "name".spec_bytes().len());
    }
    assert(s.subrange(ka, kb) != "kind".spec_bytes()) by {
        assert(s.subrange(ka, kb)[0] != "kind".spec_bytes()[0] || s.subrange(ka, kb).len() != "kind".spec_bytes().len());
    }
    lemma_trim_fixed(s, va, vb);
}

proof fn lemma_field_image(s: Seq<u8>, ka: int, kb: int, va: int, vb: int, st: Slots)
    requires
        0 <= ka <= kb <= s.len(),
        0 <= va < vb <= s.len(),
        s.len() <= usize::MAX,
        s.subrange(ka, kb) == "image".spec_bytes(),
        lead_ws(s, va, vb) == 0,
        trail_ws(s, va, vb) == 0,
    ensures
        apply_field(s, ka, kb, va, vb, st) == Some(Slots { image: Some((va as usize, vb as usize)), ..st }),
{
    lemma_lit_name();
    lemma_lit_kind();
    lemma_lit_entry();
    lemma_lit_image();
    assert(s.subrange(ka, kb) != "name".spec_bytes()) by {
        assert(s.subrange(ka, kb)[0] != "name".spec_bytes()[0] || s.subrange(ka, kb).len() != "name".spec_bytes().len());
    }
    assert(s.subrange(ka, kb) != "kind".spec_bytes()) by {
        assert(s.subrange(ka, kb)[0] != "kind".spec_bytes()[0] || s.subrange(ka, kb).len() != "kind".spec_bytes().len());
    }
    assert(s.subrange(ka, kb) != "entry".spec_bytes()) by {
        assert(s.subrange(ka, kb)[0] != "entry".spec_bytes()[0] || s.subrange(ka, kb).len() != "entry".spec_bytes().len());
    }
    lemma_trim_fixed(s, va, vb);
}

proof fn lemma_field_requires(s: Seq<u8>, ka: int, kb: int, va: int, vb: int, st: Slots)
    requires
        0 <= ka <= kb <= s.len(),
        0 <= va < vb <= s.len(),
        s.len() <= usize::MAX,
        s.subrange(ka, kb) == "requires".spec_bytes(),
        s.subrange(va, vb) == "execute".spec_bytes(),
        lead_ws(s, va, vb) == 0,
        trail_ws(s, va, vb) == 0,
    ensures
        apply_field(s, ka, kb, va, vb, st) == Some(Slots { requires: Some((va as usize, vb as usize)), ..st }),
{
    lemma_lit_name();
    lemma_lit_kind();
    lemma_lit_entry();
    lemma_lit_image();
    lemma_lit_requires();
    lemma_lit_execute();
    assert(s.subrange(ka, kb) != "name".spec_bytes()) by {
        assert(s.subrange(ka, kb)[0] != "name".spec_bytes()[0] || s.subrange(ka, kb).len() != "name".spec_bytes().len());
    }
    assert(s.subrange(ka, kb) != "kind".spec_bytes()) by {
        assert(s.subrange(ka, kb)[0] != "kind".spec_bytes()[0] || s.subrange(ka, kb).len() != "kind".spec_bytes().len());
    }
    assert(s.subrange(ka, kb) != "entry".spec_bytes()) by {
        assert(s.subrange(ka, kb)[0] != "entry".spec_bytes()[0] || s.subrange(ka, kb).len() != "entry".spec_bytes().len());
    }
    assert(s.subrange(ka, kb) != "image".spec_bytes()) by {
        assert(s.subrange(ka, kb)[0] != "image".spec_bytes()[0] || s.subrange(ka, kb).len() != "image".spec_bytes().len());
    }
    lemma_trim_fixed(s, va, vb);
}

proof fn lemma_field_digest(s: Seq<u8>, ka: int, kb: int, va: int, vb: int, st: Slots)
    requires
        0 <= ka <= kb <= s.len(),
        0 <= va < vb <= s.len(),
        s.len() <= usize::MAX,
        s.subrange(ka, kb) == "digest".spec_bytes(),
        s.subrange(va, va + 7) == "sha256:".spec_bytes(),
        vb - (va + 7) == 64,
        all_lower_hex(s, va + 7, vb),
        lead_ws(s, va, vb) == 0,
        trail_ws(s, va, vb) == 0,
    ensures
        apply_field(s, ka, kb, va, vb, st) == Some(Slots { digest: Some(((va + 7) as usize, vb as usize)), ..st }),
{
    lemma_lit_name();
    lemma_lit_kind();
    lemma_lit_entry();
    lemma_lit_image();
    lemma_lit_requires();
    lemma_lit_digest();
    lemma_lit_sha();
    assert(s.subrange(ka, kb) != "name".spec_bytes()) by {
        assert(s.subrange(ka, kb)[0] != "name".spec_bytes()[0] || s.subrange(ka, kb).len() != "name".spec_bytes().len());
    }
    assert(s.subrange(ka, kb) != "kind".spec_bytes()) by {
        assert(s.subrange(ka, kb)[0] != "kind".spec_bytes()[0] || s.subrange(ka, kb).len() != "kind".spec_bytes().len());
    }
    assert(s.subrange(ka, kb) != "entry".spec_bytes()) by {
        assert(s.subrange(ka, kb)[0] != "entry".spec_bytes()[0] || s.subrange(ka, kb).len() != "entry".spec_bytes().len());
    }
    assert(s.subrange(ka, kb) != "image".spec_bytes()) by {
        assert(s.subrange(ka, kb)[0] != "image".spec_bytes()[0] || s.subrange(ka, kb).len() != "image".spec_bytes().len());
    }
    assert(s.subrange(ka, kb) != "requires".spec_bytes()) by {
        assert(s.subrange(ka, kb)[0] != "requires".spec_bytes()[0] || s.subrange(ka, kb).len() != "requires".spec_bytes().len());
    }
    lemma_trim_fixed(s, va, vb);
}

proof fn lemma_field_trust(s: Seq<u8>, ka: int, kb: int, va: int, vb: int, st: Slots)
    requires
        0 <= ka <= kb <= s.len(),
        0 <= va < vb <= s.len(),
        s.len() <= usize::MAX,
        s.subrange(ka, kb) == "trust".spec_bytes(),
        s.subrange(va, vb) == "system-signed".spec_bytes(),
        lead_ws(s, va, vb) == 0,
        trail_ws(s, va, vb) == 0,
    ensures
        apply_field(s, ka, kb, va, vb, st) == Some(Slots { trust: Some((va as usize, vb as usize)), ..st }),
{
    lemma_lit_name();
    lemma_lit_kind();
    lemma_lit_entry();
    lemma_lit_image();
    lemma_lit_requires();
    lemma_lit_digest();
    lemma_lit_trust();
    lemma_lit_system_signed();
    assert(s.subrange(ka, kb) != "name".spec_bytes()) by {
        assert(s.subrange(ka, kb)[0] != "name".spec_bytes()[0] || s.subrange(ka, kb).len() != "name".spec_bytes().len());
    }
    assert(s.subrange(ka, kb) != "kind".spec_bytes()) by {
        assert(s.subrange(ka, kb)[0] != "kind".spec_bytes()[0] || s.subrange(ka, kb).len() != "kind".spec_bytes().len());
    }
    assert(s.subrange(ka, kb) != "entry".spec_bytes()) by {
        assert(s.subrange(ka, kb)[0] != "entry".spec_bytes()[0] || s.subrange(ka, kb).len() != "entry".spec_bytes().len());
    }
    assert(s.subrange(ka, kb) != "image".spec_bytes()) by {
        assert(s.subrange(ka, kb)[0] != "image".spec_bytes()[0] || s.subrange(ka, kb).len() != "image".spec_bytes().len());
    }
    assert(s.subrange(ka, kb) != "requires".spec_bytes()) by {
        assert(s.subrange(ka, kb)[0] != "requires".spec_bytes()[0] || s.subrange(ka, kb).len() != "requires".spec_bytes().len());
    }
    assert(s.subrange(ka, kb) != "digest".spec_bytes()) by {
        assert(s.subrange(ka, kb)[0] != "digest".spec_bytes()[0] || s.subrange(ka, kb).len() != "digest".spec_bytes().len());
    }
    lemma_trim_fixed(s, va, vb);
}

proof fn lemma_find_byte_skips(s: Seq<u8>, i: int, hi: int, b: u8)
    requires
        i <= hi,
    ensures
        forall|k: int| i <= k < find_byte(s, i, hi, b) ==> s[k] != b,
        i <= find_byte(s, i, hi, b) <= hi,
    decreases hi - i,
{
    if i < hi && s[i] != b {
        lemma_find_byte_skips(s, i + 1, hi, b);
    }
}

proof fn lemma_trim_start_stops(s: Seq<u8>, lo: int, hi: int)
    requires
        lo <= hi,
    ensures
        lo <= trim_start(s, lo, hi) <= hi,
        trim_start(s, lo, hi) < hi ==> lead_ws(s, trim_start(s, lo, hi), hi) == 0,
    decreases hi - lo,
{
    if lead_ws(s, lo, hi) > 0 && lo < hi {
        assert(lead_ws(s, lo, hi) <= hi - lo);
        lemma_trim_start_stops(s, lo + lead_ws(s, lo, hi), hi);
    }
}

proof fn lemma_trim_end_stops(s: Seq<u8>, lo: int, hi: int)
    requires
        lo <= hi,
    ensures
        lo <= trim_end(s, lo, hi) <= hi,
        lo < trim_end(s, lo, hi) ==> trail_ws(s, lo, trim_end(s, lo, hi)) == 0,
    decreases hi - lo,
{
    if trail_ws(s, lo, hi) > 0 && lo < hi {
        assert(trail_ws(s, lo, hi) <= hi - lo);
        lemma_trim_end_stops(s, lo, hi - trail_ws(s, lo, hi));
    }
}

/// A trimmed range lies inside the original one and, when not empty,
/// neither starts nor ends with whitespace.
proof fn lemma_trim_clean(s: Seq<u8>, lo: int, hi: int)
    requires
        lo <= hi,
    ensures
        lo <= trim(s, lo, hi).0 <= trim(s, lo, hi).1 <= hi,
        trim(s, lo, hi).0 < trim(s, lo, hi).1 ==> lead_ws(s, trim(s, lo, hi).0, trim(s, lo, hi).1) == 0
            && trail_ws(s, trim(s, lo, hi).0, trim(s, lo, hi).1) == 0,
{
    lemma_trim_start_stops(s, lo, hi);
    let a = trim_start(s, lo, hi);
    lemma_trim_end_stops(s, a, hi);
}

/// A range with no whitespace at either end is its own trim.
proof fn lemma_trim_fixed(s: Seq<u8>, lo: int, hi: int)
    requires
        lo < hi,
        lead_ws(s, lo, hi) == 0,
        trail_ws(s, lo, hi) == 0,
    ensures
        trim(s, lo, hi) == (lo, hi),
{
}

proof fn lemma_apply_field_clean(s: Seq<u8>, ka: int, kb: int, va: int, vb: int, st: Slots)
    requires
        0 <= va <= vb <= s.len(),
        s.len() <= usize::MAX,
        ka <= kb,
        forall|k: int| va <= k < vb ==> #[trigger] s[k] != 10,
        clean_slots(s, st),
        apply_field(s, ka, kb, va, vb, st) is Some,
    ensures
        clean_slots(s, apply_field(s, ka, kb, va, vb, st)->Some_0),
{
    lemma_kind_literals();
    lemma_trim_clean(s, va, vb);
    let tv = trim(s, va, vb);
    let key = s.subrange(ka, kb);
    let val = s.subrange(va, vb);
    if key == "kind".spec_bytes() && (val == "builtin-alias".spec_bytes() || val == "elf64-image".spec_bytes()) {
        assert(vb - va == val.len());
        assert(val.len() > 0);
        assert(s[va] == val[0]);
        assert(s[vb - 1] == val[val.len() - 1]);
        assert(!is_ws1(s[va]) && !is_ws1(s[vb - 1]));
        assert(lead_ws(s, va, vb) == 0);
        assert(trail_ws(s, va, vb) == 0);
        lemma_trim_fixed(s, va, vb);
    }
    if key == "digest".spec_bytes() {
        let p = "sha256:".spec_bytes();
        if tv.1 - (tv.0 + p.len()) == 64 && all_lower_hex(s, tv.0 + p.len(), tv.1) {
            let a = tv.0 + p.len();
            assert(is_lower_hex(s[a]) && is_lower_hex(s[tv.1 - 1]));
        }
    }
}

proof fn lemma_apply_line_clean(s: Seq<u8>, lo: int, hi0: int, st: Slots)
    requires
        0 <= lo <= hi0 <= s.len(),
        s.len() <= usize::MAX,
        forall|k: int| lo <= k < hi0 ==> #[trigger] s[k] != 10,
        clean_slots(s, st),
        apply_line(s, lo, hi0, st) is Some,
    ensures
        clean_slots(s, apply_line(s, lo, hi0, st)->Some_0),
{
    let hi = trim_cr(s, lo, hi0);
    crate::loader_signed_exec::lemma_trim_cr_bounds(s, lo, hi0);
    let eq = find_byte(s, lo, hi, 61);
    lemma_find_byte_skips(s, lo, hi, 61);
    let k = trim(s, lo, eq);
    lemma_trim_clean(s, lo, eq);
    if !(hi == lo || s[lo] == 35) && !crate::loader_signed_exec::starts_with_at(s, lo, hi, "sig=ed25519:".spec_bytes())
        && eq != hi {
        lemma_apply_field_clean(s, k.0, k.1, eq + 1, hi, st);
    }
}

/// Applying lines keeps the slots clean.
proof fn lemma_fold_clean(s: Seq<u8>, pos: int, st: Slots)
    requires
        s.len() <= usize::MAX,
        clean_slots(s, st),
        fold_lines(s, pos, st) is Some,
    ensures
        clean_slots(s, fold_lines(s, pos, st)->Some_0),
    decreases s.len() + 1 - pos,
{
    let e = find_byte(s, pos, s.len() as int, 10);
    lemma_find_byte_skips(s, pos, s.len() as int, 10);
    lemma_apply_line_clean(s, pos, e, st);
    let st2 = apply_line(s, pos, e, st)->Some_0;
    if !(e >= s.len() || e < pos) {
        lemma_fold_clean(s, e + 1, st2);
    }
}

/// The fields of a valid manifest are clean.
pub proof fn lemma_manifest_clean(s: Seq<u8>)
    requires
        s.len() <= usize::MAX,
        manifest_slots(s) is Some,
    ensures
        clean_slots(s, manifest_slots(s)->Some_0),
{
    let e = find_byte(s, 0, s.len() as int, 10);
    if e < s.len() {
        lemma_fold_clean(s, e + 1, empty_slots());
    }
}

/// The fields the signed body's lines set, in order.
#[verifier::rlimit(100)]
#[verifier::spinoff_prover]
proof fn lemma_chain(
    b: Seq<u8>,
    q0: int,
    q1: int,
    q2: int,
    q3: int,
    q4: int,
    q5: int,
    q6: int,
    name: Seq<u8>,
    kind: Seq<u8>,
    entry: Seq<u8>,
    image: Option<Seq<u8>>,
    digest: Seq<u8>,
    with_image: bool,
)
    requires
        b.len() <= usize::MAX,
        clean_value(name),
        clean_value(entry),
        image matches Some(i) ==> clean_value(i),
        clean_value(kind),
        known_kind(kind),
        with_image == (kind == "elf64-image".spec_bytes() && image is Some),
        kind == "elf64-image".spec_bytes() ==> image is Some,
        digest.len() == 64,
        all_lower_hex(digest, 0, 64),
        clean_value("execute".spec_bytes()),
        clean_value("system-signed".spec_bytes()),
        clean_value("sha256:".spec_bytes() + digest),
        plain_key("name".spec_bytes()) && "name".spec_bytes()[0] != 115,
        plain_key("kind".spec_bytes()) && "kind".spec_bytes()[0] != 115,
        plain_key("entry".spec_bytes()) && "entry".spec_bytes()[0] != 115,
        plain_key("image".spec_bytes()) && "image".spec_bytes()[0] != 115,
        plain_key("requires".spec_bytes()) && "requires".spec_bytes()[0] != 115,
        plain_key("digest".spec_bytes()) && "digest".spec_bytes()[0] != 115,
        plain_key("trust".spec_bytes()) && "trust".spec_bytes()[0] != 115,
        "name".spec_bytes().len() == 4 && "kind".spec_bytes().len() == 4 && "entry".spec_bytes().len() == 5
            && "image".spec_bytes().len() == 5 && "requires".spec_bytes().len() == 8 && "digest".spec_bytes().len() == 6
            && "trust".spec_bytes().len() == 5 && "sha256:".spec_bytes().len() == 7,
        b.subrange(0, 12) == crate::loader_signed_exec::manifest_magic(),
        find_byte(b, 0, b.len() as int, 10) == 12,
        trim_cr(b, 0, 12) == 12,
        q0 == 13,
        line_at(b, q0, "name".spec_bytes(), name),
        q1 == q0 + 6 + name.len(),
        line_at(b, q1, "kind".spec_bytes(), kind),
        q2 == q1 + 6 + kind.len(),
        line_at(b, q2, "entry".spec_bytes(), entry),
        q3 == q2 + 7 + entry.len(),
        with_image ==> line_at(b, q3, "image".spec_bytes(), image->Some_0) && q4 == q3 + 7 + image->Some_0.len(),
        !with_image ==> q4 == q3,
        line_at(b, q4, "requires".spec_bytes(), "execute".spec_bytes()),
        q5 == q4 + 10 + "execute".spec_bytes().len(),
        line_at(b, q5, "digest".spec_bytes(), "sha256:".spec_bytes() + digest),
        q6 == q5 + 8 + 71,
        line_at(b, q6, "trust".spec_bytes(), "system-signed".spec_bytes()),
        b.len() == q6 + 7 + "system-signed".spec_bytes().len(),
    ensures
        manifest_slots(b) matches Some(st) && {
            &&& range_bytes(b, st.name->Some_0) == name
            &&& range_bytes(b, st.kind->Some_0) == kind
            &&& range_bytes(b, st.entry->Some_0) == entry
            &&& range_bytes(b, st.digest->Some_0) == digest
            &&& range_bytes(b, st.trust->Some_0) == crate::loader_signed_exec::trust_signed()
            &&& st.sig is None
            &&& (st.image is Some <==> kind == "elf64-image".spec_bytes())
            &&& (st.image is Some ==> range_bytes(b, st.image->Some_0) == image->Some_0)
        },
{
    let st0 = empty_slots();
    let st1 = Slots { name: Some(((q0 + 5) as usize, (q1 - 1) as usize)), ..st0 };
    let st2 = Slots { kind: Some(((q1 + 5) as usize, (q2 - 1) as usize)), ..st1 };
    let st3 = Slots { entry: Some(((q2 + 6) as usize, (q3 - 1) as usize)), ..st2 };
    let st4 = if with_image { Slots { image: Some(((q3 + 6) as usize, (q4 - 1) as usize)), ..st3 } } else { st3 };
    let st5 = Slots { requires: Some(((q4 + 9) as usize, (q5 - 1) as usize)), ..st4 };
    let va = q5 + 7;
    let vb = q6 - 1;
    let st6 = Slots { digest: Some(((va + 7) as usize, vb as usize)), ..st5 };
    let st7 = Slots { trust: Some(((q6 + 6) as usize, (b.len() - 1) as usize)), ..st6 };
    assert(fold_lines(b, q0, st0) == fold_lines(b, q1, st1)) by {
        lemma_line_step(b, q0, "name".spec_bytes(), name, st0);
        lemma_field_name(b, q0, q0 + 4, q0 + 5, q1 - 1, st0);
    }
    assert(b.subrange(q0 + 5, q1 - 1) == name) by {
        lemma_line_step(b, q0, "name".spec_bytes(), name, st0);
    }
    assert(fold_lines(b, q1, st1) == fold_lines(b, q2, st2)) by {
        lemma_line_step(b, q1, "kind".spec_bytes(), kind, st1);
        lemma_field_kind(b, q1, q1 + 4, q1 + 5, q2 - 1, st1);
    }
    assert(b.subrange(q1 + 5, q2 - 1) == kind) by {
        lemma_line_step(b, q1, "kind".spec_bytes(), kind, st1);
    }
    assert(fold_lines(b, q2, st2) == fold_lines(b, q3, st3)) by {
        lemma_line_step(b, q2, "entry".spec_bytes(), entry, st2);
        lemma_field_entry(b, q2, q2 + 5, q2 + 6, q3 - 1, st2);
    }
    assert(b.subrange(q2 + 6, q3 - 1) == entry) by {
        lemma_line_step(b, q2, "entry".spec_bytes(), entry, st2);
    }
    assert(fold_lines(b, q3, st3) == fold_lines(b, q4, st4)) by {
        if with_image {
            lemma_line_step(b, q3, "image".spec_bytes(), image->Some_0, st3);
            lemma_field_image(b, q3, q3 + 5, q3 + 6, q4 - 1, st3);
        }
    }
    assert(with_image ==> b.subrange(q3 + 6, q4 - 1) == image->Some_0) by {
        if with_image {
            lemma_line_step(b, q3, "image".spec_bytes(), image->Some_0, st3);
        }
    }
    assert(fold_lines(b, q4, st4) == fold_lines(b, q5, st5)) by {
        lemma_line_step(b, q4, "requires".spec_bytes(), "execute".spec_bytes(), st4);
        lemma_field_requires(b, q4, q4 + 8, q4 + 9, q5 - 1, st4);
    }
    let dv = "sha256:".spec_bytes() + digest;
    assert(b.subrange(va + 7, vb) =~= digest && fold_lines(b, q5, st5) == fold_lines(b, q6, st6)) by {
        lemma_line_step(b, q5, "digest".spec_bytes(), dv, st5);
        assert(b.subrange(va, vb) == dv);
        assert(b.subrange(va, va + 7) =~= "sha256:".spec_bytes()) by {
            assert forall|i: int| 0 <= i < 7 implies b.subrange(va, va + 7)[i] == "sha256:".spec_bytes()[i] by {
                assert(b.subrange(va, vb)[i] == dv[i]);
            }
        }
        assert(b.subrange(va + 7, vb) =~= digest) by {
            assert forall|i: int| 0 <= i < 64 implies b.subrange(va + 7, vb)[i] == digest[i] by {
                assert(b.subrange(va, vb)[7 + i] == dv[7 + i]);
            }
        }
        assert(all_lower_hex(b, va + 7, vb)) by {
            assert forall|k: int| va + 7 <= k < vb implies #[trigger] is_lower_hex(b[k]) by {
                assert(b[k] == b.subrange(va + 7, vb)[k - va - 7]);
                assert(is_lower_hex(digest[k - va - 7]));
            }
        }
        lemma_field_digest(b, q5, q5 + 6, va, vb, st5);
    }
    assert(fold_lines(b, q6, st6) == fold_lines(b, b.len() as int, st7)
        && b.subrange(q6 + 6, b.len() - 1) == "system-signed".spec_bytes()) by {
        lemma_line_step(b, q6, "trust".spec_bytes(), "system-signed".spec_bytes(), st6);
        lemma_field_trust(b, q6, q6 + 5, q6 + 6, b.len() - 1, st6);
    }
    lemma_fold_end(b, st7);
    assert(fold_lines(b, 13, empty_slots()) == Some(st7));
    lemma_kind_literals();
    assert(crate::loader_signed_exec::slots_complete(b, st7));
}


/// `p` is a prefix of `s`.
pub open spec fn is_prefix(p: Seq<u8>, s: Seq<u8>) -> bool {
    p.len() <= s.len() && forall|i: int| 0 <= i < p.len() ==> #[trigger] s[i] == p[i]
}

proof fn lemma_prefix_add(x: Seq<u8>, y: Seq<u8>, s: Seq<u8>)
    requires
        is_prefix(x + y, s),
    ensures
        is_prefix(x, s),
{
    assert forall|i: int| 0 <= i < x.len() implies #[trigger] s[i] == x[i] by {
        assert(s[i] == (x + y)[i]);
    }
}

/// A line whose bytes end a prefix of the text sits where the prefix says.
proof fn lemma_line_from_prefix(s: Seq<u8>, pre: Seq<u8>, k: Seq<u8>, v: Seq<u8>, more: Seq<u8>)
    requires
        is_prefix((((pre + k) + seq![61u8]) + v) + seq![10u8], s),
        s.len() > pre.len() + k.len() + v.len() + 1,
    ensures
        line_at(s, pre.len() as int, k, v),
{
    let w = (((pre + k) + seq![61u8]) + v) + seq![10u8];
    let pos = pre.len() as int;
    assert forall|i: int| 0 <= i < k.len() implies s[pos + i] == #[trigger] k[i] by {
        assert(s[pos + i] == w[pos + i]);
    }
    assert(s[pos + k.len()] == w[pos + k.len()]);
    assert forall|i: int| 0 <= i < v.len() implies s[pos + k.len() + 1 + i] == #[trigger] v[i] by {
        assert(s[pos + k.len() + 1 + i] == w[pos + k.len() + 1 + i]);
    }
    assert(s[pos + k.len() + 1 + v.len()] == w[pos + k.len() + 1 + v.len()]);
}

proof fn lemma_split_literals()
    ensures
        "\nname=".spec_bytes() == seq![10u8] + "name".spec_bytes() + seq![61u8],
        "\nkind=".spec_bytes() == seq![10u8] + "kind".spec_bytes() + seq![61u8],
        "\nentry=".spec_bytes() == seq![10u8] + "entry".spec_bytes() + seq![61u8],
        "image=".spec_bytes() == "image".spec_bytes() + seq![61u8],
        "requires=execute\ndigest=sha256:".spec_bytes() == "requires".spec_bytes() + seq![61u8] + "execute".spec_bytes()
            + seq![10u8] + "digest".spec_bytes() + seq![61u8] + "sha256:".spec_bytes(),
        "\ntrust=".spec_bytes() == seq![10u8] + "trust".spec_bytes() + seq![61u8],
        "\n".spec_bytes() == seq![10u8],
{
    lemma_lit_nl_name();
    lemma_lit_nl_kind();
    lemma_lit_nl_entry();
    lemma_lit_nl();
    lemma_lit_image_eq();
    lemma_lit_req_digest();
    lemma_lit_nl_trust();
    lemma_lit_name();
    lemma_lit_kind();
    lemma_lit_entry();
    lemma_lit_image();
    lemma_lit_requires();
    lemma_lit_execute();
    lemma_lit_digest();
    lemma_lit_sha();
    lemma_lit_trust();
    assert("\nname=".spec_bytes() =~= seq![10u8] + "name".spec_bytes() + seq![61u8]);
    assert("\nkind=".spec_bytes() =~= seq![10u8] + "kind".spec_bytes() + seq![61u8]);
    assert("\nentry=".spec_bytes() =~= seq![10u8] + "entry".spec_bytes() + seq![61u8]);
    assert("image=".spec_bytes() =~= "image".spec_bytes() + seq![61u8]);
    assert("requires=execute\ndigest=sha256:".spec_bytes() =~= "requires".spec_bytes() + seq![61u8] + "execute".spec_bytes()
            + seq![10u8] + "digest".spec_bytes() + seq![61u8] + "sha256:".spec_bytes());
    assert("\ntrust=".spec_bytes() =~= seq![10u8] + "trust".spec_bytes() + seq![61u8]);
}

/// The signed body cut after each of its lines: the magic line, then the
/// name, kind, entry, image (when carried), requires, digest and trust lines.
pub open spec fn body_parts(name: Seq<u8>, kind: Seq<u8>, entry: Seq<u8>, image: Option<Seq<u8>>, digest: Seq<u8>) -> (
    Seq<u8>,
    Seq<u8>,
    Seq<u8>,
    Seq<u8>,
    Seq<u8>,
    Seq<u8>,
    Seq<u8>,
    Seq<u8>,
) {
    let nl = seq![10u8];
    let eqb = seq![61u8];
    let with_image = kind == "elf64-image".spec_bytes() && image is Some;
    let p1 = "clan-exec-v1".spec_bytes() + nl;
    let w1 = (((p1 + "name".spec_bytes()) + eqb) + name) + nl;
    let w2 = (((w1 + "kind".spec_bytes()) + eqb) + kind) + nl;
    let w3 = (((w2 + "entry".spec_bytes()) + eqb) + entry) + nl;
    let p4 = if with_image { (((w3 + "image".spec_bytes()) + eqb) + image->Some_0) + nl } else { w3 };
    let w4 = (((p4 + "requires".spec_bytes()) + eqb) + "execute".spec_bytes()) + nl;
    let w5 = (((w4 + "digest".spec_bytes()) + eqb) + ("sha256:".spec_bytes() + digest)) + nl;
    let w6 = (((w5 + "trust".spec_bytes()) + eqb) + "system-signed".spec_bytes()) + nl;
    (p1, w1, w2, w3, p4, w4, w5, w6)
}

/// The signed body is the last of its cuts.
#[verifier::rlimit(100)]
#[verifier::spinoff_prover]
proof fn lemma_body_regroup(name: Seq<u8>, kind: Seq<u8>, entry: Seq<u8>, image: Option<Seq<u8>>, digest: Seq<u8>)
    ensures
        crate::loader_signed_exec::signed_body(name, kind, entry, image, digest) == body_parts(name, kind, entry, image, digest).7,
{
    lemma_split_literals();
    let b = crate::loader_signed_exec::signed_body(name, kind, entry, image, digest);
    let (p1, w1, w2, w3, p4, w4, w5, w6) = body_parts(name, kind, entry, image, digest);
    let nl = seq![10u8];
    let eqb = seq![61u8];
    let with_image = kind == "elf64-image".spec_bytes() && image is Some;
    let a = "clan-exec-v1".spec_bytes();
    let y1 = a + "\nname=".spec_bytes();
    assert(y1 =~= (p1 + "name".spec_bytes()) + eqb);
    let y3 = (y1 + name) + "\nkind=".spec_bytes();
    assert(y3 =~= (w1 + "kind".spec_bytes()) + eqb);
    let y5 = (y3 + kind) + "\nentry=".spec_bytes();
    assert(y5 =~= (w2 + "entry".spec_bytes()) + eqb);
    let y7 = (y5 + entry) + "\n".spec_bytes();
    assert(y7 =~= w3);
    let il = if with_image {
        "image=".spec_bytes() + image->Some_0 + "\n".spec_bytes()
    } else {
        Seq::<u8>::empty()
    };
    let y8 = y7 + il;
    assert(y8 =~= p4);
    let y9 = y8 + "requires=execute\ndigest=sha256:".spec_bytes();
    assert(y9 =~= ((w4 + "digest".spec_bytes()) + eqb) + "sha256:".spec_bytes());
    let y10 = y9 + digest;
    assert(y10 =~= ((w4 + "digest".spec_bytes()) + eqb) + ("sha256:".spec_bytes() + digest));
    let y11 = y10 + "\ntrust=".spec_bytes();
    assert(y11 =~= (w5 + "trust".spec_bytes()) + eqb);
    assert(b =~= (y11 + "system-signed".spec_bytes()) + "\n".spec_bytes());
}

/// Where each line of the signed body sits.
#[verifier::rlimit(100)]
#[verifier::spinoff_prover]
proof fn lemma_body_lines(b: Seq<u8>, name: Seq<u8>, kind: Seq<u8>, entry: Seq<u8>, image: Option<Seq<u8>>, digest: Seq<u8>)
    requires
        b == body_parts(name, kind, entry, image, digest).7,
    ensures
        ({
            let (p1, w1, w2, w3, p4, w4, w5, w6) = body_parts(name, kind, entry, image, digest);
            let with_image = kind == "elf64-image".spec_bytes() && image is Some;
            &&& is_prefix(p1, b)
            &&& line_at(b, p1.len() as int, "name".spec_bytes(), name)
            &&& line_at(b, w1.len() as int, "kind".spec_bytes(), kind)
            &&& line_at(b, w2.len() as int, "entry".spec_bytes(), entry)
            &&& with_image ==> line_at(b, w3.len() as int, "image".spec_bytes(), image->Some_0)
            &&& line_at(b, p4.len() as int, "requires".spec_bytes(), "execute".spec_bytes())
            &&& line_at(b, w4.len() as int, "digest".spec_bytes(), "sha256:".spec_bytes() + digest)
            &&& line_at(b, w5.len() as int, "trust".spec_bytes(), "system-signed".spec_bytes())
        }),
{
    let (p1, w1, w2, w3, p4, w4, w5, w6) = body_parts(name, kind, entry, image, digest);
    let with_image = kind == "elf64-image".spec_bytes() && image is Some;
    let nl = seq![10u8];
    let eqb = seq![61u8];
    assert(is_prefix(w6, b));
    lemma_line_from_prefix(b, w5, "trust".spec_bytes(), "system-signed".spec_bytes(), nl);
    prefix_of_line(w5, "trust".spec_bytes(), "system-signed".spec_bytes(), b);
    lemma_line_from_prefix(b, w4, "digest".spec_bytes(), "sha256:".spec_bytes() + digest, nl);
    prefix_of_line(w4, "digest".spec_bytes(), "sha256:".spec_bytes() + digest, b);
    lemma_line_from_prefix(b, p4, "requires".spec_bytes(), "execute".spec_bytes(), nl);
    prefix_of_line(p4, "requires".spec_bytes(), "execute".spec_bytes(), b);
    if with_image {
        lemma_line_from_prefix(b, w3, "image".spec_bytes(), image->Some_0, nl);
        prefix_of_line(w3, "image".spec_bytes(), image->Some_0, b);
    }
    lemma_line_from_prefix(b, w2, "entry".spec_bytes(), entry, nl);
    prefix_of_line(w2, "entry".spec_bytes(), entry, b);
    lemma_line_from_prefix(b, w1, "kind".spec_bytes(), kind, nl);
    prefix_of_line(w1, "kind".spec_bytes(), kind, b);
    lemma_line_from_prefix(b, p1, "name".spec_bytes(), name, nl);
    prefix_of_line(p1, "name".spec_bytes(), name, b);
}

/// What comes before a line that ends a prefix is itself a prefix.
proof fn prefix_of_line(pre: Seq<u8>, k: Seq<u8>, v: Seq<u8>, s: Seq<u8>)
    requires
        is_prefix((((pre + k) + seq![61u8]) + v) + seq![10u8], s),
    ensures
        is_prefix(pre, s),
{
    let w = (((pre + k) + seq![61u8]) + v) + seq![10u8];
    assert forall|i: int| 0 <= i < pre.len() implies #[trigger] s[i] == pre[i] by {
        assert(s[i] == w[i]);
    }
}


/// The first line of a text that starts with the magic and a line feed.
proof fn lemma_body_magic(b: Seq<u8>, p1: Seq<u8>)
    requires
        p1 == "clan-exec-v1".spec_bytes() + seq![10u8],
        is_prefix(p1, b),
    ensures
        b.subrange(0, 12) == crate::loader_signed_exec::manifest_magic(),
        find_byte(b, 0, b.len() as int, 10) == 12,
        trim_cr(b, 0, 12) == 12,
{
    lemma_lit_magic();
    let a = "clan-exec-v1".spec_bytes();
    assert(b.subrange(0, 12) =~= a) by {
        assert forall|i: int| 0 <= i < 12 implies b.subrange(0, 12)[i] == a[i] by {
            assert(b[i] == p1[i]);
        }
    }
    assert(b[12] == 10) by {
        assert(b[12] == p1[12]);
    }
    assert forall|j: int| 0 <= j < 12 implies b[j] != 10 by {
        assert(b[j] == p1[j]);
    }
    lemma_find_byte_at(b, 0, b.len() as int, 10, 12);
    assert(b[11] == p1[11]);
}

/// The lengths of the keys and constants of the signed body.
proof fn lemma_key_lengths()
    ensures
        "clan-exec-v1".spec_bytes().len() == 12,
        "name".spec_bytes().len() == 4 && "kind".spec_bytes().len() == 4 && "entry".spec_bytes().len() == 5
            && "image".spec_bytes().len() == 5 && "requires".spec_bytes().len() == 8 && "digest".spec_bytes().len() == 6
            && "trust".spec_bytes().len() == 5 && "sha256:".spec_bytes().len() == 7,
        "execute".spec_bytes().len() == 7 && "system-signed".spec_bytes().len() == 13,
{
    lemma_lit_magic();
    lemma_lit_name();
    lemma_lit_kind();
    lemma_lit_entry();
    lemma_lit_image();
    lemma_lit_requires();
    lemma_lit_execute();
    lemma_lit_digest();
    lemma_lit_sha();
    lemma_lit_trust();
    lemma_lit_system_signed();
}

/// A field value the signed body can carry on a line of its own: not empty,
/// no line feed, no whitespace at either end.
pub open spec fn clean_value(v: Seq<u8>) -> bool {
    &&& v.len() > 0
    &&& no_lf(v)
    &&& lead_ws(v, 0, v.len() as int) == 0
    &&& trail_ws(v, 0, v.len() as int) == 0
}

proof fn lemma_plain_keys()
    ensures
        plain_key("name".spec_bytes()) && "name".spec_bytes()[0] != 115,
        plain_key("kind".spec_bytes()) && "kind".spec_bytes()[0] != 115,
        plain_key("entry".spec_bytes()) && "entry".spec_bytes()[0] != 115,
        plain_key("image".spec_bytes()) && "image".spec_bytes()[0] != 115,
        plain_key("requires".spec_bytes()) && "requires".spec_bytes()[0] != 115,
        plain_key("digest".spec_bytes()) && "digest".spec_bytes()[0] != 115,
        plain_key("trust".spec_bytes()) && "trust".spec_bytes()[0] != 115,
{
    lemma_lit_name();
    lemma_lit_kind();
    lemma_lit_entry();
    lemma_lit_image();
    lemma_lit_requires();
    lemma_lit_digest();
    lemma_lit_trust();
}

/// The constant values of the body are clean.
proof fn lemma_constant_values(kind: Seq<u8>, digest: Seq<u8>)
    requires
        known_kind(kind),
        digest.len() == 64,
        all_lower_hex(digest, 0, 64),
    ensures
        clean_value(kind),
        clean_value("execute".spec_bytes()),
        clean_value("system-signed".spec_bytes()),
        clean_value("sha256:".spec_bytes() + digest),
{
    lemma_kind_literals();
    lemma_lit_execute();
    lemma_lit_system_signed();
    lemma_lit_sha();
    let d = "sha256:".spec_bytes() + digest;
    assert(d.len() == 71);
    assert(d[0] == 115 && d[1] == 104 && d[2] == 97);
    assert(d[70] == digest[63] && d[69] == digest[62] && d[68] == digest[61]);
    assert(is_lower_hex(digest[63]) && is_lower_hex(digest[62]) && is_lower_hex(digest[61]));
    assert forall|i: int| 0 <= i < d.len() implies #[trigger] d[i] != 10 by {
        if i >= 7 {
            assert(d[i] == digest[i - 7]);
            assert(is_lower_hex(digest[i - 7]));
        }
    }
}

/// The canonical signed body of clean fields is a valid manifest whose
/// fields are those fields: the image only for an `elf64-image`, the trust
/// level `system-signed`, and no signature.
#[verifier::rlimit(100)]
#[verifier::spinoff_prover]
pub proof fn lemma_signed_body_parses(
    name: Seq<u8>,
    kind: Seq<u8>,
    entry: Seq<u8>,
    image: Option<Seq<u8>>,
    digest: Seq<u8>,
)
    requires
        clean_value(name),
        clean_value(entry),
        image matches Some(i) ==> clean_value(i),
        known_kind(kind),
        kind == "elf64-image".spec_bytes() ==> image is Some,
        digest.len() == 64,
        all_lower_hex(digest, 0, 64),
        crate::loader_signed_exec::signed_body(name, kind, entry, image, digest).len() <= usize::MAX,
    ensures
        ({
            let b = crate::loader_signed_exec::signed_body(name, kind, entry, image, digest);
            manifest_slots(b) matches Some(st) && {
                &&& range_bytes(b, st.name->Some_0) == name
                &&& range_bytes(b, st.kind->Some_0) == kind
                &&& range_bytes(b, st.entry->Some_0) == entry
                &&& range_bytes(b, st.digest->Some_0) == digest
                &&& range_bytes(b, st.trust->Some_0) == crate::loader_signed_exec::trust_signed()
                &&& st.sig is None
                &&& (st.image is Some <==> kind == "elf64-image".spec_bytes())
                &&& (st.image is Some ==> range_bytes(b, st.image->Some_0) == image->Some_0)
            }
        }),
{
    let b = crate::loader_signed_exec::signed_body(name, kind, entry, image, digest);
    let with_image = kind == "elf64-image".spec_bytes() && image is Some;
    let parts = body_parts(name, kind, entry, image, digest);
    lemma_body_regroup(name, kind, entry, image, digest);
    lemma_body_lines(b, name, kind, entry, image, digest);
    lemma_plain_keys();
    lemma_constant_values(kind, digest);
    lemma_key_lengths();
    assert(parts.1.len() == parts.0.len() + 6 + name.len());
    assert(parts.2.len() == parts.1.len() + 6 + kind.len());
    assert(parts.3.len() == parts.2.len() + 7 + entry.len());
    assert(parts.6.len() == parts.5.len() + 8 + 71);
    lemma_body_magic(b, parts.0);
    lemma_chain(b, parts.0.len() as int, parts.1.len() as int, parts.2.len() as int, parts.3.len() as int,
        parts.4.len() as int, parts.5.len() as int, parts.6.len() as int, name, kind, entry, image, digest, with_image);
}

/// The value of a clean, non-empty range is a clean value.
proof fn lemma_clean_value_of(s: Seq<u8>, r: Option<(usize, usize)>)
    requires
        clean_range(s, r),
        r is Some,
        r->Some_0.0 < r->Some_0.1,
    ensures
        clean_value(range_bytes(s, r->Some_0)),
{
    let p = r->Some_0;
    let v = range_bytes(s, p);
    assert forall|i: int| 0 <= i < v.len() implies s[p.0 + i] == #[trigger] v[i] by {}
    lemma_ws_shift(s, p.0 as int, v);
    assert forall|i: int| 0 <= i < v.len() implies #[trigger] v[i] != 10 by {
        assert(s[p.0 + i] != 10);
    }
}

/// The image a manifest's signed body is built with.
pub open spec fn image_view(m: ParsedExecManifest) -> Option<Seq<u8>> {
    match m.image {
        Some(i) => Some(i@),
        None => None,
    }
}

/// The signed body re-parses to the signed fields: when manifest text `s`
/// parses to `m` (as `parse_manifest` gives it) and `m`'s name, entry and
/// image are not empty, the canonical signed body of `m` with `m`'s own
/// digest (what `canonical_signed_body_bytes` builds) is again a valid
/// manifest, and its fields are `m`'s name, kind, entry and digest, the
/// trust level `system-signed`, the image exactly for an `elf64-image`, and
/// no signature.
pub proof fn lemma_signed_body_reparses(s: Seq<u8>, m: ParsedExecManifest)
    requires
        s.len() <= usize::MAX,
        manifest_slots(s) is Some,
        holds_slots(m, s, manifest_slots(s)->Some_0),
        m.name@.len() > 0,
        m.entry@.len() > 0,
        m.image matches Some(i) ==> i@.len() > 0,
        signed_body(m.name@, m.kind@, m.entry@, image_view(m), m.digest_hex@).len() <= usize::MAX,
    ensures
        ({
            let b = signed_body(m.name@, m.kind@, m.entry@, image_view(m), m.digest_hex@);
            manifest_slots(b) matches Some(st) && {
                &&& range_bytes(b, st.name->Some_0) == m.name@
                &&& range_bytes(b, st.kind->Some_0) == m.kind@
                &&& range_bytes(b, st.entry->Some_0) == m.entry@
                &&& range_bytes(b, st.digest->Some_0) == m.digest_hex@
                &&& range_bytes(b, st.trust->Some_0) == crate::loader_signed_exec::trust_signed()
                &&& st.sig is None
                &&& (st.image is Some <==> m.kind@ == "elf64-image".spec_bytes())
                &&& (st.image is Some ==> range_bytes(b, st.image->Some_0) == m.image->Some_0@)
            }
        }),
{
    let st = manifest_slots(s)->Some_0;
    lemma_manifest_clean(s);
    assert(slots_complete(s, st));
    lemma_clean_value_of(s, st.name);
    lemma_clean_value_of(s, st.entry);
    if st.image is Some {
        lemma_clean_value_of(s, st.image);
    }
    let d = st.digest->Some_0;
    assert(all_lower_hex(m.digest_hex@, 0, 64)) by {
        assert forall|k: int| 0 <= k < 64 implies #[trigger] is_lower_hex(m.digest_hex@[k]) by {
            assert(m.digest_hex@[k] == s[d.0 + k]);
        }
    }
    lemma_signed_body_parses(m.name@, m.kind@, m.entry@, image_view(m), m.digest_hex@);
}

} // verus!
