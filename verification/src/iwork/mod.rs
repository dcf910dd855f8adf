//! Apple iWork (Pages, Numbers, Keynote): the IWA container's chunk framing, the
//! protobuf wire-format text scan and the plist metadata scan shared by the three
//! extractors.

pub mod keynote;
pub mod numbers;
pub mod pages;

use vstd::prelude::*;
use crate::text;
use crate::text::{chars_string, push_decimal, push_str, slice_vec, str_chars};
use crate::types::{Metadata, MetadataView, empty_metadata, strs};
use crate::plugins::KreuzbergError;

verus! {

/// The largest decompressed IWA stream accepted (64 MiB).
pub const MAX_IWA_DECOMPRESSED_SIZE: usize = 67108864;

// ---------------------------------------------------------------------------
// Protobuf varints
// ---------------------------------------------------------------------------

/// Reading a varint that began at `pos`, now at `i`, `shift` bits and `acc` so far:
/// the value and the number of bytes used; `None` when the data ends first or the
/// varint runs past 64 bits.
pub open spec fn varint_from(data: Seq<u8>, pos: nat, i: nat, shift: u32, acc: u64) -> Option<(u64, nat)>
    decreases data.len() - i,
{
    if i >= data.len() {
        None
    } else {
        let b = data[i as int] as u64;
        let acc2 = acc | ((b & 0x7F) << shift);
        if b & 0x80 == 0 {
            Some((acc2, (i + 1 - pos) as nat))
        } else if shift + 7 >= 64 {
            None
        } else {
            varint_from(data, pos, i + 1, (shift + 7) as u32, acc2)
        }
    }
}

/// The protobuf varint at `pos`: its value and length in bytes.
pub open spec fn varint(data: Seq<u8>, pos: nat) -> Option<(u64, nat)> {
    varint_from(data, pos, pos, 0, 0)
}

/// A varint found lies within the data and uses at least one byte.
pub proof fn lemma_varint_from(data: Seq<u8>, pos: nat, i: nat, shift: u32, acc: u64)
    requires
        pos <= i,
    ensures
        varint_from(data, pos, i, shift, acc) matches Some((v, n)) ==> n >= 1 && pos + n <= data.len()
            && n >= i + 1 - pos,
    decreases data.len() - i,
{
    if i < data.len() {
        let b = data[i as int] as u64;
        if b & 0x80 != 0 && shift + 7 < 64 {
            let acc2 = acc | ((b & 0x7F) << shift);
            lemma_varint_from(data, pos, i + 1, (shift + 7) as u32, acc2);
        }
    }
}

/// Reads a protobuf varint at `pos`: the value and the number of bytes consumed,
/// or `None` when the data ends first or the varint is longer than 64 bits.
pub fn read_varint(data: &[u8], pos: usize) -> (r: Option<(u64, usize)>)
    ensures
        r matches Some((v, n)) ==> varint(data@, pos as nat) == Some((v, n as nat)),
        r is None ==> varint(data@, pos as nat) is None,
{
    let mut result: u64 = 0;
    let mut shift: u32 = 0;
    let mut i = pos;
    loop
        invariant
            pos <= i,
            shift < 64,
            varint(data@, pos as nat) == varint_from(data@, pos as nat, i as nat, shift, result),
        decreases data@.len() - i,
    {
        if i >= data.len() {
            return None;
        }
        let byte = data[i] as u64;
        i = i + 1;
        result = result | ((byte & 0x7F) << shift);
        if byte & 0x80 == 0 {
            return Some((result, i - pos));
        }
        if shift + 7 >= 64 {
            return None;
        }
        shift = shift + 7;
    }
}

// ---------------------------------------------------------------------------
// Protobuf text scan
// ---------------------------------------------------------------------------

/// Calls `std::str::from_utf8` and copies the result: `Some` exactly when `bytes`
/// are well-formed UTF-8, and then the text they encode.
#[verifier::external_body]
fn utf8_text(bytes: &[u8]) -> (r: Option<String>)
    ensures
        r is Some <==> vstd::utf8::valid_utf8(bytes@),
        r matches Some(s) ==> s@ == vstd::utf8::decode_utf8(bytes@),
{
    match std::str::from_utf8(bytes) {
        Ok(s) => Some(s.to_string()),
        Err(_) => None,
    }
}

/// Some character of `t` is alphabetic or numeric.
pub open spec fn has_alnum(t: Seq<char>) -> bool {
    exists|k: int| 0 <= k < t.len() && (text::alphabetic(#[trigger] t[k]) || text::numeric(t[k]))
}

/// The text a length-delimited payload itself contributes: its trimmed UTF-8
/// text when that is at least three bytes long and holds a letter or digit.
pub open spec fn payload_text(payload: Seq<u8>) -> Seq<Seq<char>> {
    if vstd::utf8::valid_utf8(payload) {
        let t = text::trim(vstd::utf8::decode_utf8(payload));
        if text::utf8_len(t) >= 3 && has_alnum(t) {
            seq![t]
        } else {
            seq![]
        }
    } else {
        seq![]
    }
}

/// The text strings of a protobuf message from byte `i` on: each length-delimited
/// field gives its own text (see `payload_text`) and then that of the message it
/// may hold; the scan stops at a truncated field or an unknown wire type.
pub open spec fn proto_from(data: Seq<u8>, i: nat) -> Seq<Seq<char>>
    decreases data.len(), data.len() - i,
{
    if i >= data.len() {
        seq![]
    } else {
        match varint(data, i) {
            None => seq![],
            Some((tag, tl)) => {
                proof {
                    lemma_varint_from(data, i, i, 0, 0);
                }
                let i2 = i + tl;
                let wire = tag & 0x7;
                if wire == 0 {
                    match varint(data, i2) {
                        Some((_, l)) => {
                            proof {
                                lemma_varint_from(data, i2, i2, 0, 0);
                            }
                            proto_from(data, i2 + l)
                        },
                        None => seq![],
                    }
                } else if wire == 1 {
                    if i2 + 8 >= data.len() {
                        seq![]
                    } else {
                        proto_from(data, i2 + 8)
                    }
                } else if wire == 2 {
                    match varint(data, i2) {
                        None => seq![],
                        Some((length, lb)) => {
                            proof {
                                lemma_varint_from(data, i2, i2, 0, 0);
                            }
                            let i3 = i2 + lb;
                            let end = i3 + length;
                            if end > data.len() {
                                seq![]
                            } else {
                                let payload = data.subrange(i3 as int, end as int);
                                payload_text(payload) + proto_from(payload, 0) + proto_from(data, end as nat)
                            }
                        },
                    }
                } else if wire == 5 {
                    if i2 + 4 >= data.len() {
                        seq![]
                    } else {
                        proto_from(data, i2 + 4)
                    }
                } else {
                    seq![]
                }
            },
        }
    }
}

/// A text as the protobuf scan keeps it: trimmed, at least three bytes long,
/// and holding a letter or digit.
pub open spec fn kept_text(s: Seq<char>) -> bool {
    text::trim(s) == s && text::utf8_len(s) >= 3 && has_alnum(s)
}

/// Every text the protobuf scan finds is trimmed, at least three bytes long,
/// and holds a letter or digit (by the names of `char::is_alphabetic` and
/// `char::is_numeric`).
pub proof fn lemma_proto_texts_kept(data: Seq<u8>, i: nat)
    ensures
        forall|k: int| 0 <= k < proto_from(data, i).len() ==> kept_text(#[trigger] proto_from(data, i)[k]),
    decreases data.len(), data.len() - i,
{
    if i < data.len() {
        match varint(data, i) {
            None => {},
            Some((tag, tl)) => {
                lemma_varint_from(data, i, i, 0, 0);
                let i2 = i + tl;
                let wire = tag & 0x7;
                if wire == 0 {
                    match varint(data, i2) {
                        Some((_, l)) => {
                            lemma_varint_from(data, i2, i2, 0, 0);
                            lemma_proto_texts_kept(data, i2 + l);
                            assert(proto_from(data, i) == proto_from(data, i2 + l));
                        },
                        None => {},
                    }
                } else if wire == 1 {
                    if i2 + 8 < data.len() {
                        lemma_proto_texts_kept(data, i2 + 8);
                        assert(proto_from(data, i) == proto_from(data, i2 + 8));
                    }
                } else if wire == 2 {
                    match varint(data, i2) {
                        None => {},
                        Some((length, lb)) => {
                            lemma_varint_from(data, i2, i2, 0, 0);
                            let i3 = i2 + lb;
                            let end = i3 + length;
                            if end <= data.len() {
                                let payload = data.subrange(i3 as int, end as int);
                                lemma_proto_texts_kept(payload, 0);
                                lemma_proto_texts_kept(data, end as nat);
                                if vstd::utf8::valid_utf8(payload) {
                                    text::lemma_trim_idempotent(vstd::utf8::decode_utf8(payload));
                                }
                                let a = payload_text(payload);
                                let b = proto_from(payload, 0);
                                let c = proto_from(data, end as nat);
                                assert(proto_from(data, i) == a + b + c);
                                assert forall|k: int| 0 <= k < (a + b + c).len() implies kept_text(
                                    #[trigger] (a + b + c)[k],
                                ) by {
                                    if k < a.len() {
                                    } else if k < a.len() + b.len() {
                                        assert((a + b + c)[k] == b[k - a.len()]);
                                    } else {
                                        assert((a + b + c)[k] == c[k - a.len() - b.len()]);
                                    }
                                }
                            }
                        },
                    }
                } else if wire == 5 {
                    if i2 + 4 < data.len() {
                        lemma_proto_texts_kept(data, i2 + 4);
                        assert(proto_from(data, i) == proto_from(data, i2 + 4));
                    }
                }
            },
        }
    }
}

/// The text strings found in a protobuf message, in order.
pub open spec fn proto_texts(data: Seq<u8>) -> Seq<Seq<char>> {
    proto_from(data, 0)
}

/// The text of a payload, when it qualifies.
fn payload_text_exec(payload: &[u8]) -> (r: Vec<String>)
    ensures
        strs(r@) == payload_text(payload@),
{
    let mut r: Vec<String> = Vec::new();
    match utf8_text(payload) {
        Some(s) => {
            let c = str_chars(s.as_str());
            let t = text::trim_vec(c.as_slice());
            let n = text::utf8_len_exec(t.as_slice());
            if n >= 3 {
                let mut k: usize = 0;
                while k < t.len() && !(text::is_alphabetic(t[k]) || text::is_numeric(t[k]))
                    invariant
                        k <= t@.len(),
                        forall|j: int| 0 <= j < k ==> !(text::alphabetic(#[trigger] t@[j]) || text::numeric(t@[j])),
                    decreases t@.len() - k,
                {
                    k = k + 1;
                }
                let found = k < t.len();
                if found {
                    r.push(chars_string(t.as_slice()));
                }
                assert(found ==> has_alnum(t@));
                assert(strs(r@) =~= payload_text(payload@));
            } else {
                assert(strs(r@) =~= payload_text(payload@));
            }
        },
        None => {
            assert(strs(r@) =~= payload_text(payload@));
        },
    }
    r
}

/// Appends the strings of `more` to `out`.
pub(crate) fn extend_strings(out: &mut Vec<String>, more: Vec<String>)
    ensures
        strs(final(out)@) == strs(old(out)@) + strs(more@),
{
    let ghost a = out@;
    let ghost b = more@;
    let mut m = more;
    out.append(&mut m);
    assert(strs(out@) =~= strs(a) + strs(b));
}

/// Extracts the text strings of a raw protobuf message without a schema: every
/// length-delimited field whose payload is UTF-8 text of at least three bytes
/// holding a letter or digit (trimmed), and, recursively, those of the messages
/// such fields hold.
pub fn extract_text_from_proto(data: &[u8]) -> (r: Vec<String>)
    ensures
        strs(r@) == proto_texts(data@),
    decreases data@.len(),
{
    let mut texts: Vec<String> = Vec::new();
    let mut i: usize = 0;
    let n = data.len();
    assert(strs(texts@) =~= Seq::<Seq<char>>::empty());
    while i < n
        invariant
            i <= n == data@.len(),
            proto_texts(data@) == strs(texts@) + proto_from(data@, i as nat),
        ensures
            proto_texts(data@) == strs(texts@),
        decreases n - i,
    {
        proof {
            lemma_varint_from(data@, i as nat, i as nat, 0, 0);
        }
        let (tag, tl) = match read_varint(data, i) {
            Some(v) => v,
            None => {
                assert(strs(texts@) + Seq::<Seq<char>>::empty() =~= strs(texts@));
                break;
            },
        };
        let i2 = i + tl;
        proof {
            lemma_varint_from(data@, i2 as nat, i2 as nat, 0, 0);
        }
        let wire = tag & 0x7;
        if wire == 0 {
            match read_varint(data, i2) {
                Some((_, l)) => {
                    i = i2 + l;
                },
                None => {
                    assert(strs(texts@) + Seq::<Seq<char>>::empty() =~= strs(texts@));
                    break;
                },
            }
        } else if wire == 1 {
            if n - i2 <= 8 {
                assert(strs(texts@) + Seq::<Seq<char>>::empty() =~= strs(texts@));
                break;
            }
            i = i2 + 8;
        } else if wire == 2 {
            match read_varint(data, i2) {
                None => {
                    assert(strs(texts@) + Seq::<Seq<char>>::empty() =~= strs(texts@));
                    break;
                },
                Some((length, lb)) => {
                    let i3 = i2 + lb;
                    if length > (n - i3) as u64 {
                        assert(strs(texts@) + Seq::<Seq<char>>::empty() =~= strs(texts@));
                        break;
                    }
                    let end = i3 + length as usize;
                    let payload = slice_u8(data, i3, end);
                    let own = payload_text_exec(payload.as_slice());
                    let nested = extract_text_from_proto(payload.as_slice());
                    let ghost before = strs(texts@);
                    extend_strings(&mut texts, own);
                    extend_strings(&mut texts, nested);
                    assert(before + payload_text(payload@) + proto_from(payload@, 0) + proto_from(data@, end as nat)
                        =~= strs(texts@) + proto_from(data@, end as nat));
                    i = end;
                },
            }
        } else if wire == 5 {
            if n - i2 <= 4 {
                assert(strs(texts@) + Seq::<Seq<char>>::empty() =~= strs(texts@));
                break;
            }
            i = i2 + 4;
        } else {
            assert(strs(texts@) + Seq::<Seq<char>>::empty() =~= strs(texts@));
            break;
        }
    }
    texts
}

/// A copy of `data[a..b]`.
fn slice_u8(data: &[u8], a: usize, b: usize) -> (r: Vec<u8>)
    requires
        a <= b <= data@.len(),
    ensures
        r@ == data@.subrange(a as int, b as int),
{
    let mut r: Vec<u8> = Vec::new();
    let mut k = a;
    while k < b
        invariant
            a <= k <= b <= data@.len(),
            r@ == data@.subrange(a as int, k as int),
        decreases b - k,
    {
        r.push(data[k]);
        assert(data@.subrange(a as int, k + 1) =~= data@.subrange(a as int, k as int).push(data@[k as int]));
        k = k + 1;
    }
    r
}

// ---------------------------------------------------------------------------
// Deduplication
// ---------------------------------------------------------------------------

/// The trimmed forms of `acc`.
pub open spec fn trims(acc: Seq<Seq<char>>) -> Seq<Seq<char>> {
    acc.map_values(|t: Seq<char>| text::trim(t))
}

/// `s` without near-duplicates, appended to `acc`: a string is kept at its first
/// occurrence, and dropped when a kept one is equal to it once both are trimmed.
pub open spec fn dedup_onto(acc: Seq<Seq<char>>, s: Seq<Seq<char>>) -> Seq<Seq<char>>
    decreases s.len(),
{
    if s.len() == 0 {
        acc
    } else if trims(acc).contains(text::trim(s[0])) {
        dedup_onto(acc, s.drop_first())
    } else {
        dedup_onto(acc.push(s[0]), s.drop_first())
    }
}

/// `s` with each string kept only where no earlier string is a near-duplicate
/// of it (equal once both are trimmed).
pub open spec fn dedup(s: Seq<Seq<char>>) -> Seq<Seq<char>> {
    dedup_onto(seq![], s)
}

/// No two strings are near-duplicates: no two are equal once trimmed.
pub open spec fn no_repeats(s: Seq<Seq<char>>) -> bool {
    forall|i: int, j: int| 0 <= i < j < s.len() ==> text::trim(s[i]) != text::trim(s[j])
}

/// Whether `v` holds `x`.
pub(crate) fn contains_string(v: &Vec<String>, x: &String) -> (r: bool)
    ensures
        r == strs(v@).contains(x@),
{
    let mut k: usize = 0;
    while k < v.len()
        invariant
            k <= v@.len(),
            forall|j: int| 0 <= j < k ==> strs(v@)[j] != x@,
        decreases v@.len() - k,
    {
        if text::str_eq(v[k].as_str(), x.as_str()) {
            assert(strs(v@)[k as int] == x@);
            return true;
        }
        k = k + 1;
    }
    false
}

/// Removes near-duplicates (strings equal once trimmed), keeping the first
/// occurrence of each, in order.
pub fn dedup_text(texts: Vec<String>) -> (r: Vec<String>)
    ensures
        strs(r@) == dedup(strs(texts@)),
{
    let ghost s = strs(texts@);
    let mut result: Vec<String> = Vec::new();
    let mut seen: Vec<Vec<char>> = Vec::new();
    let mut k: usize = 0;
    assert(s.skip(0) =~= s);
    assert(strs(result@) =~= Seq::<Seq<char>>::empty());
    assert(text::views(seen@) =~= trims(strs(result@)));
    while k < texts.len()
        invariant
            k <= texts@.len(),
            s == strs(texts@),
            text::views(seen@) == trims(strs(result@)),
            dedup(s) == dedup_onto(strs(result@), s.skip(k as int)),
        decreases texts@.len() - k,
    {
        let t = texts[k].clone();
        assert(s.skip(k as int)[0] == t@);
        assert(s.skip(k as int).drop_first() =~= s.skip(k + 1));
        let tc = str_chars(t.as_str());
        let tt = text::trim_vec(tc.as_slice());
        let mut found = false;
        let mut j: usize = 0;
        while j < seen.len()
            invariant
                j <= seen@.len(),
                !found ==> forall|m: int| 0 <= m < j ==> text::views(seen@)[m] != tt@,
                found ==> text::views(seen@).contains(tt@),
            decreases seen@.len() - j,
        {
            if text::slice_eq(seen[j].as_slice(), tt.as_slice()) {
                assert(text::views(seen@)[j as int] == tt@);
                found = true;
            }
            j = j + 1;
        }
        if !found {
            let ghost before = strs(result@);
            let ghost sv = text::views(seen@);
            result.push(t);
            seen.push(tt);
            assert(strs(result@) =~= before.push(t@));
            assert(text::views(seen@) =~= sv.push(text::trim(t@)));
            assert(trims(before.push(t@)) =~= trims(before).push(text::trim(t@)));
        }
        k = k + 1;
    }
    assert(s.skip(k as int) =~= Seq::<Seq<char>>::empty());
    result
}

/// What deduplication onto `acc` keeps: no near-duplicates if `acc` had none;
/// only strings of `acc` and `s`; a near-duplicate of every string of `acc`
/// and `s`; and `acc` itself first.
pub proof fn lemma_dedup_onto(acc: Seq<Seq<char>>, s: Seq<Seq<char>>)
    requires
        no_repeats(acc),
    ensures
        no_repeats(dedup_onto(acc, s)),
        forall|x: Seq<char>| #[trigger] dedup_onto(acc, s).contains(x) ==> acc.contains(x) || s.contains(x),
        forall|x: Seq<char>| #[trigger] s.contains(x) ==> trims(dedup_onto(acc, s)).contains(text::trim(x)),
        forall|x: Seq<char>| #[trigger] acc.contains(x) ==> dedup_onto(acc, s).contains(x),
        dedup_onto(acc, s).take(acc.len() as int) == acc,
        dedup_onto(acc, s).len() >= acc.len(),
    decreases s.len(),
{
    if s.len() == 0 {
        assert(acc.take(acc.len() as int) =~= acc);
        assert forall|x: Seq<char>| #[trigger] s.contains(x) implies trims(acc).contains(text::trim(x)) by {
        }
    } else {
        let rest = s.drop_first();
        assert forall|x: Seq<char>| s.contains(x) && x != s[0] implies #[trigger] rest.contains(x) by {
            let k = choose|k: int| 0 <= k < s.len() && s[k] == x;
            assert(rest[k - 1] == x);
        }
        assert forall|x: Seq<char>| #[trigger] rest.contains(x) implies s.contains(x) by {
            let k = choose|k: int| 0 <= k < rest.len() && rest[k] == x;
            assert(s[k + 1] == x);
        }
        if trims(acc).contains(text::trim(s[0])) {
            lemma_dedup_onto(acc, rest);
            let r = dedup_onto(acc, rest);
            let m = choose|m: int| 0 <= m < trims(acc).len() && trims(acc)[m] == text::trim(s[0]);
            assert(r.take(acc.len() as int)[m] == acc[m]);
            assert(trims(r)[m] == text::trim(s[0]));
            assert forall|x: Seq<char>| #[trigger] s.contains(x) implies trims(r).contains(text::trim(x)) by {
                if x == s[0] {
                    assert(trims(r)[m] == text::trim(x));
                } else {
                    assert(rest.contains(x));
                }
            }
        } else {
            let acc2 = acc.push(s[0]);
            assert(no_repeats(acc2)) by {
                assert forall|i: int, j: int| 0 <= i < j < acc2.len() implies text::trim(acc2[i]) != text::trim(
                    acc2[j],
                ) by {
                    if j == acc.len() {
                        assert(acc[i] == acc2[i]);
                        assert(trims(acc)[i] == text::trim(acc[i]));
                    }
                }
            }
            lemma_dedup_onto(acc2, rest);
            let r = dedup_onto(acc2, rest);
            assert(r.take(acc.len() as int) =~= r.take(acc2.len() as int).take(acc.len() as int));
            assert(acc2.take(acc.len() as int) =~= acc);
            assert(acc2.contains(s[0])) by {
                assert(acc2[acc.len() as int] == s[0]);
            }
            assert forall|x: Seq<char>| #[trigger] r.contains(x) implies acc.contains(x) || s.contains(x) by {
                if acc2.contains(x) {
                    let k = choose|k: int| 0 <= k < acc2.len() && acc2[k] == x;
                    if k < acc.len() {
                        assert(acc[k] == x);
                    }
                }
            }
            assert forall|x: Seq<char>| #[trigger] acc.contains(x) implies r.contains(x) by {
                let k = choose|k: int| 0 <= k < acc.len() && acc[k] == x;
                assert(acc2[k] == x);
            }
            assert forall|x: Seq<char>| #[trigger] s.contains(x) implies trims(r).contains(text::trim(x)) by {
                if x == s[0] {
                    let k = choose|k: int| 0 <= k < r.len() && r[k] == x;
                    assert(trims(r)[k] == text::trim(x));
                } else {
                    assert(rest.contains(x));
                }
            }
        }
    }
}

/// Deduplication leaves no near-duplicates, keeps only strings of the input,
/// and keeps a near-duplicate of every string of the input.
pub proof fn lemma_dedup(s: Seq<Seq<char>>)
    ensures
        no_repeats(dedup(s)),
        forall|x: Seq<char>| #[trigger] dedup(s).contains(x) ==> s.contains(x),
        forall|x: Seq<char>| #[trigger] s.contains(x) ==> trims(dedup(s)).contains(text::trim(x)),
{
    lemma_dedup_onto(seq![], s);
}

/// Deduplicating twice is deduplicating once.
pub proof fn lemma_dedup_idempotent(s: Seq<Seq<char>>)
    ensures
        dedup(dedup(s)) == dedup(s),
{
    lemma_dedup(s);
    lemma_dedup_onto_distinct(seq![], dedup(s));
}

/// Deduplicating a list without near-duplicates onto a prefix that has no
/// near-duplicate of any of them only appends it.
proof fn lemma_dedup_onto_distinct(acc: Seq<Seq<char>>, s: Seq<Seq<char>>)
    requires
        no_repeats(s),
        forall|k: int| 0 <= k < s.len() ==> !trims(acc).contains(#[trigger] text::trim(s[k])),
    ensures
        dedup_onto(acc, s) == acc + s,
    decreases s.len(),
{
    if s.len() == 0 {
        assert(acc + s =~= acc);
    } else {
        let rest = s.drop_first();
        assert(!trims(acc).contains(text::trim(s[0])));
        let acc2 = acc.push(s[0]);
        assert(no_repeats(rest)) by {
            assert forall|i: int, j: int| 0 <= i < j < rest.len() implies text::trim(rest[i]) != text::trim(
                rest[j],
            ) by {
                assert(rest[i] == s[i + 1] && rest[j] == s[j + 1]);
            }
        }
        assert forall|k: int| 0 <= k < rest.len() implies !trims(acc2).contains(#[trigger] text::trim(rest[k])) by {
            assert(rest[k] == s[k + 1]);
            assert(!trims(acc).contains(text::trim(s[k + 1])));
            if trims(acc2).contains(text::trim(rest[k])) {
                let m = choose|m: int| 0 <= m < trims(acc2).len() && trims(acc2)[m] == text::trim(rest[k]);
                if m < acc.len() {
                    assert(trims(acc)[m] == trims(acc2)[m]);
                } else {
                    assert(text::trim(s[0]) != text::trim(s[k + 1]));
                }
            }
        }
        lemma_dedup_onto_distinct(acc2, rest);
        assert(acc2 + rest =~= acc + s);
    }
}

// ---------------------------------------------------------------------------
// IWA chunk framing
// ---------------------------------------------------------------------------

/// What `snap::raw::Decoder::decompress_vec` gives for a raw Snappy block: the
/// decompressed bytes, or the message of its error.
pub uninterp spec fn snappy_raw(block: Seq<u8>) -> Result<Seq<u8>, Seq<char>>;

/// Decompresses a raw Snappy block with a fresh `snap::raw::Decoder` (which keeps
/// no state between blocks); the result is named `snappy_raw(block)`, an error as
/// "Snappy decompression failed: " and the error's message.
#[verifier::external_body]
fn snappy_decompress(block: &[u8]) -> (r: Result<Vec<u8>, String>)
    ensures
        match snappy_raw(block@) {
            Ok(x) => r matches Ok(y) && y@ == x,
            Err(m) => r matches Err(e) && e@ == m,
        },
{
    let mut decoder = snap::raw::Decoder::new();
    match decoder.decompress_vec(block) {
        Ok(v) => Ok(v),
        Err(e) => Err(format!("Snappy decompression failed: {e}")),
    }
}

/// The 24-bit little-endian chunk length at `i + 1`.
pub open spec fn chunk_len(data: Seq<u8>, i: int) -> nat {
    (data[i + 1] as nat) + (data[i + 2] as nat) * 256 + (data[i + 3] as nat) * 65536
}

/// The message for a chunk that runs past the data.
pub open spec fn out_of_bounds_message(offset: nat, len: nat, data_len: nat) -> Seq<char> {
    "IWA chunk out of bounds: offset="@ + text::decimal(offset) + ", chunk_len="@ + text::decimal(len)
        + ", data_len="@ + text::decimal(data_len)
}

/// The message for a decompressed stream over the size limit.
pub open spec fn compressed_limit_message() -> Seq<char> {
    "Decompressed IWA exceeds size limit ("@ + text::decimal(MAX_IWA_DECOMPRESSED_SIZE as nat) + " bytes)"@
}

/// The message for an uncompressed stream over the size limit.
pub open spec fn uncompressed_limit_message() -> Seq<char> {
    "Uncompressed IWA exceeds size limit ("@ + text::decimal(MAX_IWA_DECOMPRESSED_SIZE as nat) + " bytes)"@
}

/// Decoding the chunks from byte `i` on, `out` decoded so far: each chunk is a
/// type byte, a 24-bit length and a payload; type 0 is a Snappy block, type 1 is
/// stored as it is, other types are skipped.
pub open spec fn iwa_from(data: Seq<u8>, i: nat, out: Seq<u8>) -> Result<Seq<u8>, Seq<char>>
    decreases data.len() - i,
{
    if i + 4 > data.len() {
        Ok(out)
    } else {
        let len = chunk_len(data, i as int);
        let start = i + 4;
        let end = start + len;
        if end > data.len() {
            Err(out_of_bounds_message(start, len, data.len()))
        } else {
            let payload = data.subrange(start as int, end as int);
            if data[i as int] == 0 {
                match snappy_raw(payload) {
                    Err(m) => Err(m),
                    Ok(d) => if out.len() + d.len() > MAX_IWA_DECOMPRESSED_SIZE {
                        Err(compressed_limit_message())
                    } else {
                        iwa_from(data, end, out + d)
                    },
                }
            } else if data[i as int] == 1 {
                if out.len() + payload.len() > MAX_IWA_DECOMPRESSED_SIZE {
                    Err(uncompressed_limit_message())
                } else {
                    iwa_from(data, end, out + payload)
                }
            } else {
                iwa_from(data, end, out)
            }
        }
    }
}

/// The protobuf payload of an IWA stream, or the message of what went wrong.
pub open spec fn iwa_stream(data: Seq<u8>) -> Result<Seq<u8>, Seq<char>> {
    iwa_from(data, 0, seq![])
}

/// Appends `more` to `out`.
fn extend_bytes(out: &mut Vec<u8>, more: &[u8])
    ensures
        final(out)@ == old(out)@ + more@,
{
    let ghost a = out@;
    let mut k: usize = 0;
    while k < more.len()
        invariant
            k <= more@.len(),
            out@ == a + more@.take(k as int),
        decreases more@.len() - k,
    {
        out.push(more[k]);
        assert(more@.take(k + 1) =~= more@.take(k as int).push(more@[k as int]));
        k = k + 1;
    }
    assert(more@.take(k as int) =~= more@);
}

/// Decodes an Apple IWA byte stream (type byte, 24-bit little-endian length and
/// payload per chunk) into the raw protobuf payload.
pub fn decode_iwa_stream(data: &[u8]) -> (r: Result<Vec<u8>, String>)
    ensures
        match iwa_stream(data@) {
            Ok(x) => r matches Ok(y) && y@ == x,
            Err(m) => r matches Err(e) && e@ == m,
        },
{
    let mut output: Vec<u8> = Vec::new();
    let mut i: usize = 0;
    let n = data.len();
    while n >= 4 && i <= n - 4
        invariant
            i <= n == data@.len(),
            output@.len() <= MAX_IWA_DECOMPRESSED_SIZE,
            iwa_stream(data@) == iwa_from(data@, i as nat, output@),
        decreases n - i,
    {
        let chunk_type = data[i];
        let len: usize = (data[i + 1] as usize) + (data[i + 2] as usize) * 256 + (data[i + 3] as usize) * 65536;
        let start = i + 4;
        if len > n - start {
            let mut m: Vec<char> = Vec::new();
            push_str(&mut m, "IWA chunk out of bounds: offset=");
            push_decimal(&mut m, start as u128);
            push_str(&mut m, ", chunk_len=");
            push_decimal(&mut m, len as u128);
            push_str(&mut m, ", data_len=");
            push_decimal(&mut m, n as u128);
            return Err(chars_string(m.as_slice()));
        }
        let end = start + len;
        let payload = slice_u8(data, start, end);
        if chunk_type == 0 {
            match snappy_decompress(payload.as_slice()) {
                Err(e) => {
                    return Err(e);
                },
                Ok(d) => {
                    if d.len() > MAX_IWA_DECOMPRESSED_SIZE - output.len() {
                        let mut m: Vec<char> = Vec::new();
                        push_str(&mut m, "Decompressed IWA exceeds size limit (");
                        push_decimal(&mut m, MAX_IWA_DECOMPRESSED_SIZE as u128);
                        push_str(&mut m, " bytes)");
                        return Err(chars_string(m.as_slice()));
                    }
                    extend_bytes(&mut output, d.as_slice());
                },
            }
        } else if chunk_type == 1 {
            if payload.len() > MAX_IWA_DECOMPRESSED_SIZE - output.len() {
                let mut m: Vec<char> = Vec::new();
                push_str(&mut m, "Uncompressed IWA exceeds size limit (");
                push_decimal(&mut m, MAX_IWA_DECOMPRESSED_SIZE as u128);
                push_str(&mut m, " bytes)");
                return Err(chars_string(m.as_slice()));
            }
            extend_bytes(&mut output, payload.as_slice());
        }
        i = end;
    }
    Ok(output)
}

// ---------------------------------------------------------------------------
// Plist metadata
// ---------------------------------------------------------------------------

/// `<tag>`.
pub open spec fn open_tag(tag: Seq<char>) -> Seq<char> {
    "<"@ + tag + ">"@
}

/// `</tag>`.
pub open spec fn close_tag(tag: Seq<char>) -> Seq<char> {
    "</"@ + tag + ">"@
}

/// Where `<tag>` and `</tag>` first occur in `line`, when both do.
pub open spec fn tag_bounds(line: Seq<char>, tag: Seq<char>) -> Option<(nat, nat)> {
    match (text::find(line, open_tag(tag)), text::find(line, close_tag(tag))) {
        (Some(s), Some(e)) => Some((s + open_tag(tag).len(), e)),
        _ => None,
    }
}

/// The first `</tag>` of `line` does not come before the end of its first `<tag>`
/// (otherwise the text between them is not a slice of the line).
pub open spec fn tag_in_order(line: Seq<char>, tag: Seq<char>) -> bool {
    tag_bounds(line, tag) matches Some((a, b)) ==> a <= b
}

/// The text between the first `<tag>` and the first `</tag>` of `line`.
pub open spec fn plist_tag(line: Seq<char>, tag: Seq<char>) -> Option<Seq<char>> {
    match tag_bounds(line, tag) {
        Some((a, b)) => Some(line.subrange(a as int, b as int)),
        None => None,
    }
}

/// `<tag>` and `</tag>` built from `tag`.
fn tags(tag: &str) -> (r: (Vec<char>, Vec<char>))
    ensures
        r.0@ == open_tag(tag@),
        r.1@ == close_tag(tag@),
{
    let mut open: Vec<char> = Vec::new();
    push_str(&mut open, "<");
    push_str(&mut open, tag);
    push_str(&mut open, ">");
    let mut close: Vec<char> = Vec::new();
    push_str(&mut close, "</");
    push_str(&mut close, tag);
    push_str(&mut close, ">");
    (open, close)
}

/// Whether the first `</tag>` of `line` comes no earlier than the end of its first
/// `<tag>`.
pub fn plist_tag_in_order(line: &str, tag: &str) -> (r: bool)
    ensures
        r == tag_in_order(line@, tag@),
{
    let c = str_chars(line);
    let (open, close) = tags(tag);
    match (text::find_exec(c.as_slice(), open.as_slice()), text::find_exec(c.as_slice(), close.as_slice())) {
        (Some(s), Some(e)) => {
            proof {
                text::lemma_find_from(c@, open@, 0);
            }
            s + open.len() <= e
        },
        _ => true,
    }
}

/// The text of a simple XML element on one line, such as `<string>value</string>`:
/// what lies between the first `<tag>` and the first `</tag>`.
pub fn extract_plist_tag(line: &str, tag: &str) -> (r: Option<String>)
    requires
        tag_in_order(line@, tag@),
    ensures
        r matches Some(v) ==> plist_tag(line@, tag@) == Some(v@),
        r is None ==> plist_tag(line@, tag@) is None,
{
    let c = str_chars(line);
    let (open, close) = tags(tag);
    match (text::find_exec(c.as_slice(), open.as_slice()), text::find_exec(c.as_slice(), close.as_slice())) {
        (Some(s), Some(e)) => {
            proof {
                text::lemma_find_from(c@, open@, 0);
                text::lemma_find_from(c@, close@, 0);
            }
            let v = slice_vec(c.as_slice(), s + open.len(), e);
            Some(chars_string(v.as_slice()))
        },
        _ => None,
    }
}

/// `v` with `x` appended unless it is already there.
pub open spec fn add_unique(v: Seq<Seq<char>>, x: Seq<char>) -> Seq<Seq<char>> {
    if v.contains(x) {
        v
    } else {
        v.push(x)
    }
}

/// `kw` with each trimmed non-empty word of `words` appended unless already there.
pub open spec fn add_words(kw: Seq<Seq<char>>, words: Seq<Seq<char>>) -> Seq<Seq<char>>
    decreases words.len(),
{
    if words.len() == 0 {
        kw
    } else {
        let k2 = add_words(kw, words.drop_last());
        let t = text::trim(words.last());
        if t.len() > 0 && !k2.contains(t) {
            k2.push(t)
        } else {
            k2
        }
    }
}

/// The list, or an empty one.
pub open spec fn or_empty(o: Option<Seq<Seq<char>>>) -> Seq<Seq<char>> {
    match o {
        Some(v) => v,
        None => seq![],
    }
}

/// Metadata after a plist `key`/`value` pair: a title or language is set when
/// there is none yet; authors and keywords (split at commas) are added without
/// repeats; other keys change nothing.
pub open spec fn apply_plist(m: MetadataView, key: Seq<char>, value: Seq<char>) -> MetadataView {
    if (key == "title"@ || key == "Title"@) && m.title is None {
        MetadataView { title: Some(value), ..m }
    } else if key == "author"@ || key == "Author"@ || key == "creator"@ || key == "Creator"@ {
        MetadataView { authors: Some(add_unique(or_empty(m.authors), value)), ..m }
    } else if key == "keywords"@ || key == "Keywords"@ {
        MetadataView { keywords: Some(add_words(or_empty(m.keywords), text::split_char(value, ','))), ..m }
    } else if (key == "language"@ || key == "Language"@) && m.language is None {
        MetadataView { language: Some(value), ..m }
    } else {
        m
    }
}

/// The lines of `s`, each trimmed.
pub open spec fn trimmed_lines(s: Seq<char>) -> Seq<Seq<char>> {
    text::lines(s).map_values(|l: Seq<char>| text::trim(l))
}

/// The first non-empty line at or after `j`.
pub open spec fn next_nonempty(tl: Seq<Seq<char>>, j: nat) -> nat
    decreases tl.len() - j,
{
    if j < tl.len() && tl[j as int].len() == 0 {
        next_nonempty(tl, j + 1)
    } else {
        j
    }
}

/// The metadata of plist lines from `i` on: each `<key>` line followed (after
/// empty lines) by a `<string>` line is a pair.
pub open spec fn plist_scan(tl: Seq<Seq<char>>, i: nat, m: MetadataView) -> MetadataView
    decreases tl.len() - i,
{
    if i >= tl.len() {
        m
    } else {
        match plist_tag(tl[i as int], "key"@) {
            Some(key) => {
                let j = next_nonempty(tl, i + 1);
                proof {
                    lemma_next_nonempty(tl, i + 1);
                }
                match if j < tl.len() {
                    plist_tag(tl[j as int], "string"@)
                } else {
                    None
                } {
                    Some(value) => plist_scan(tl, j + 1, apply_plist(m, key, value)),
                    None => plist_scan(tl, i + 1, m),
                }
            },
            None => plist_scan(tl, i + 1, m),
        }
    }
}

/// Every tag that the scan from `i` reads has its closing tag in order.
pub open spec fn plist_ok(tl: Seq<Seq<char>>, i: nat) -> bool
    decreases tl.len() - i,
{
    if i >= tl.len() {
        true
    } else {
        tag_in_order(tl[i as int], "key"@) && match plist_tag(tl[i as int], "key"@) {
            Some(key) => {
                let j = next_nonempty(tl, i + 1);
                proof {
                    lemma_next_nonempty(tl, i + 1);
                }
                (j < tl.len() ==> tag_in_order(tl[j as int], "string"@)) && if j < tl.len() && plist_tag(
                    tl[j as int],
                    "string"@,
                ) is Some {
                    plist_ok(tl, j + 1)
                } else {
                    plist_ok(tl, i + 1)
                }
            },
            None => plist_ok(tl, i + 1),
        }
    }
}

pub proof fn lemma_next_nonempty(tl: Seq<Seq<char>>, j: nat)
    ensures
        j <= tl.len() ==> j <= next_nonempty(tl, j) <= tl.len(),
        j > tl.len() ==> next_nonempty(tl, j) == j,
    decreases tl.len() - j,
{
    if j < tl.len() && tl[j as int].len() == 0 {
        lemma_next_nonempty(tl, j + 1);
    }
}

/// The trimmed lines of `s`.
fn trimmed_lines_exec(s: &str) -> (r: Vec<Vec<char>>)
    ensures
        text::views(r@) == trimmed_lines(s@),
{
    let c = str_chars(s);
    let ls = text::lines_exec(c.as_slice());
    let ghost lv = text::views(ls@);
    let mut r: Vec<Vec<char>> = Vec::new();
    let mut k: usize = 0;
    while k < ls.len()
        invariant
            k <= ls@.len(),
            lv == text::views(ls@),
            lv == text::lines(s@),
            text::views(r@) == lv.take(k as int).map_values(|l: Seq<char>| text::trim(l)),
        decreases ls@.len() - k,
    {
        let t = text::trim_vec(ls[k].as_slice());
        let ghost before = text::views(r@);
        let ghost tv = t@;
        r.push(t);
        assert(text::views(r@) =~= before.push(tv));
        assert(lv.take(k + 1).map_values(|l: Seq<char>| text::trim(l)) =~= lv.take(k as int).map_values(
            |l: Seq<char>| text::trim(l),
        ).push(text::trim(lv[k as int])));
        k = k + 1;
    }
    assert(lv.take(k as int) =~= lv);
    r
}

/// The first non-empty line at or after `j`.
fn next_nonempty_exec(tl: &Vec<Vec<char>>, j: usize) -> (r: usize)
    requires
        j <= tl@.len(),
    ensures
        r == next_nonempty(text::views(tl@), j as nat),
        j <= r <= tl@.len(),
{
    let ghost tv = text::views(tl@);
    proof {
        lemma_next_nonempty(tv, j as nat);
    }
    let mut k = j;
    while k < tl.len() && tl[k].len() == 0
        invariant
            j <= k <= tl@.len(),
            tv == text::views(tl@),
            next_nonempty(tv, j as nat) == next_nonempty(tv, k as nat),
        decreases tl@.len() - k,
    {
        assert(tv[k as int] == tl@[k as int]@);
        k = k + 1;
    }
    if k < tl.len() {
        assert(tv[k as int] == tl@[k as int]@);
    }
    k
}

/// The text between the first `<tag>` and `</tag>` of `line`, or `None` (also
/// when they are out of order).
fn tag_of(line: &[char], tag: &str) -> (r: Option<Vec<char>>)
    ensures
        tag_in_order(line@, tag@) ==> (r matches Some(v) ==> plist_tag(line@, tag@) == Some(v@)) && (r is None
            ==> plist_tag(line@, tag@) is None),
        r is Some ==> tag_in_order(line@, tag@),
        !tag_in_order(line@, tag@) ==> r is None,
{
    let (open, close) = tags(tag);
    match (text::find_exec(line, open.as_slice()), text::find_exec(line, close.as_slice())) {
        (Some(s), Some(e)) => {
            proof {
                text::lemma_find_from(line@, open@, 0);
                text::lemma_find_from(line@, close@, 0);
            }
            if e >= s && e - s >= open.len() {
                Some(slice_vec(line, s + open.len(), e))
            } else {
                None
            }
        },
        _ => None,
    }
}

/// `v` with `x` appended unless it is already there.
fn push_unique(v: &mut Vec<String>, x: String)
    ensures
        strs(final(v)@) == add_unique(strs(old(v)@), x@),
{
    let mut k: usize = 0;
    while k < v.len()
        invariant
            k <= v@.len(),
            v@ == old(v)@,
            forall|j: int| 0 <= j < k ==> strs(v@)[j] != x@,
        decreases v@.len() - k,
    {
        if text::str_eq(v[k].as_str(), x.as_str()) {
            assert(strs(v@)[k as int] == x@);
            assert(strs(v@).contains(x@));
            return;
        }
        k = k + 1;
    }
    let ghost before = strs(v@);
    v.push(x);
    assert(strs(v@) =~= before.push(x@));
}

/// Metadata after one plist pair.
fn apply_plist_exec(metadata: &mut Metadata, key: &[char], value: Vec<char>)
    ensures
        final(metadata)@ == apply_plist(old(metadata)@, key@, value@),
{
    let ks = chars_string(key);
    let k = ks.as_str();
    if (text::str_eq(k, "title") || text::str_eq(k, "Title")) && metadata.title.is_none() {
        metadata.title = Some(chars_string(value.as_slice()));
    } else if text::str_eq(k, "author") || text::str_eq(k, "Author") || text::str_eq(k, "creator") || text::str_eq(
        k,
        "Creator",
    ) {
        let mut authors = match metadata.authors.take() {
            Some(a) => a,
            None => Vec::new(),
        };
        assert(strs(authors@) == or_empty(crate::types::opt_strs(old(metadata).authors)));
        push_unique(&mut authors, chars_string(value.as_slice()));
        metadata.authors = Some(authors);
    } else if text::str_eq(k, "keywords") || text::str_eq(k, "Keywords") {
        let mut kw = match metadata.keywords.take() {
            Some(a) => a,
            None => Vec::new(),
        };
        let ghost k0 = strs(kw@);
        assert(k0 == or_empty(crate::types::opt_strs(old(metadata).keywords)));
        let words = text::split_char_exec(value.as_slice(), ',');
        let ghost wv = text::views(words@);
        let mut w: usize = 0;
        assert(wv.take(0) =~= Seq::<Seq<char>>::empty());
        while w < words.len()
            invariant
                w <= words@.len(),
                wv == text::views(words@),
                strs(kw@) == add_words(k0, wv.take(w as int)),
            decreases words@.len() - w,
        {
            assert(wv.take(w + 1).drop_last() =~= wv.take(w as int));
            assert(wv.take(w + 1).last() == words@[w as int]@);
            let t = text::trim_vec(words[w].as_slice());
            if t.len() > 0 {
                let ghost before = strs(kw@);
                let ts = chars_string(t.as_slice());
                push_unique(&mut kw, ts);
                assert(strs(kw@) == add_unique(before, t@));
            }
            w = w + 1;
        }
        assert(wv.take(w as int) =~= wv);
        metadata.keywords = Some(kw);
    } else if (text::str_eq(k, "language") || text::str_eq(k, "Language")) && metadata.language.is_none() {
        metadata.language = Some(chars_string(value.as_slice()));
    }
}

/// Whether every tag that plist parsing reads is in order, so that parsing is
/// defined.
pub fn plist_well_formed(plist: &str) -> (r: bool)
    ensures
        r == plist_ok(trimmed_lines(plist@), 0),
{
    let tl = trimmed_lines_exec(plist);
    let ghost tv = text::views(tl@);
    let mut i: usize = 0;
    while i < tl.len()
        invariant
            i <= tl@.len(),
            tv == text::views(tl@),
            tv == trimmed_lines(plist@),
            plist_ok(tv, 0) == plist_ok(tv, i as nat),
        decreases tl@.len() - i,
    {
        assert(tv[i as int] == tl@[i as int]@);
        let line = tl[i].as_slice();
        if !plist_tag_in_order_chars(line, "key") {
            return false;
        }
        match tag_of(line, "key") {
            Some(_key) => {
                let j = next_nonempty_exec(&tl, i + 1);
                if j < tl.len() {
                    assert(tv[j as int] == tl@[j as int]@);
                    let vl = tl[j].as_slice();
                    if !plist_tag_in_order_chars(vl, "string") {
                        return false;
                    }
                    match tag_of(vl, "string") {
                        Some(_v) => {
                            i = j + 1;
                        },
                        None => {
                            i = i + 1;
                        },
                    }
                } else {
                    i = i + 1;
                }
            },
            None => {
                i = i + 1;
            },
        }
    }
    true
}

/// Whether the first `</tag>` of `line` does not begin before its first `<tag>` ends.
fn plist_tag_in_order_chars(line: &[char], tag: &str) -> (r: bool)
    ensures
        r == tag_in_order(line@, tag@),
{
    let (open, close) = tags(tag);
    match (text::find_exec(line, open.as_slice()), text::find_exec(line, close.as_slice())) {
        (Some(s), Some(e)) => {
            proof {
                text::lemma_find_from(line@, open@, 0);
            }
            e >= s && e - s >= open.len()
        },
        _ => true,
    }
}

/// Reads the title, authors, keywords and language of an XML plist whose entries
/// are `<key>name</key>` lines each followed (after empty lines) by a
/// `<string>value</string>` line.
pub fn parse_plist_metadata(plist: &str, metadata: &mut Metadata)
    requires
        plist_ok(trimmed_lines(plist@), 0),
    ensures
        final(metadata)@ == plist_scan(trimmed_lines(plist@), 0, old(metadata)@),
{
    let tl = trimmed_lines_exec(plist);
    let ghost tv = text::views(tl@);
    let mut i: usize = 0;
    while i < tl.len()
        invariant
            i <= tl@.len(),
            tv == text::views(tl@),
            tv == trimmed_lines(plist@),
            plist_ok(tv, i as nat),
            plist_scan(tv, 0, old(metadata)@) == plist_scan(tv, i as nat, metadata@),
        decreases tl@.len() - i,
    {
        assert(tv[i as int] == tl@[i as int]@);
        let line = tl[i].as_slice();
        match tag_of(line, "key") {
            Some(key) => {
                let j = next_nonempty_exec(&tl, i + 1);
                if j < tl.len() {
                    assert(tv[j as int] == tl@[j as int]@);
                    match tag_of(tl[j].as_slice(), "string") {
                        Some(value) => {
                            apply_plist_exec(metadata, key.as_slice(), value);
                            i = j + 1;
                        },
                        None => {
                            i = i + 1;
                        },
                    }
                } else {
                    i = i + 1;
                }
            },
            None => {
                i = i + 1;
            },
        }
    }
}

// ---------------------------------------------------------------------------
// The ZIP container
// ---------------------------------------------------------------------------

/// What went wrong reading one entry of a ZIP archive.
pub enum EntryFailure {
    /// The archive could not be opened; the error's message.
    Open(Seq<char>),
    /// No entry has that name.
    Missing,
    /// The entry could not be read; the error's message.
    Read(Seq<char>),
}

/// Why an entry could not be read.
#[derive(Debug, Clone, PartialEq, Eq)]
pub enum ZipEntryError {
    Open(String),
    Missing,
    Read(String),
}

impl View for ZipEntryError {
    type V = EntryFailure;

    open spec fn view(&self) -> EntryFailure {
        match self {
            ZipEntryError::Open(m) => EntryFailure::Open(m@),
            ZipEntryError::Missing => EntryFailure::Missing,
            ZipEntryError::Read(m) => EntryFailure::Read(m@),
        }
    }
}

/// What `zip::ZipArchive::new` on `content` and its entries give: the names of
/// the entries whose name can be read, in archive order, or the message of the
/// error that prevented opening the archive.
pub uninterp spec fn zip_names(content: Seq<u8>) -> Result<Seq<Seq<char>>, Seq<char>>;

/// What reading entry `name` of the ZIP archive `content` gives: its bytes, or
/// what failed.
pub uninterp spec fn zip_entry(content: Seq<u8>, name: Seq<char>) -> Result<Seq<u8>, EntryFailure>;

/// Opens `content` with `zip::ZipArchive::new` and lists, in archive order, the
/// names of the entries that `ZipArchive::by_index` opens and whose `name()`
/// decodes; the result is named `zip_names(content)`, an error by its message.
#[verifier::external_body]
fn zip_entry_names(content: &[u8]) -> (r: Result<Vec<String>, String>)
    ensures
        match zip_names(content@) {
            Ok(x) => r matches Ok(y) && strs(y@) == x,
            Err(m) => r matches Err(e) && e@ == m,
        },
{
    let mut archive = match zip::ZipArchive::new(std::io::Cursor::new(content)) {
        Ok(a) => a,
        Err(e) => return Err(e.to_string()),
    };
    let mut names = Vec::new();
    for i in 0..archive.len() {
        if let Ok(f) = archive.by_index(i) {
            if let Ok(n) = f.name() {
                names.push(n.to_string());
            }
        }
    }
    Ok(names)
}

/// Opens `content` with `zip::ZipArchive::new`, finds entry `name` with
/// `ZipArchive::by_name` and reads it with `Read::read_to_end`; the result is
/// named `zip_entry(content, name)`, failures by their message.
#[verifier::external_body]
fn zip_read_entry(content: &[u8], name: &str) -> (r: Result<Vec<u8>, ZipEntryError>)
    ensures
        match zip_entry(content@, name@) {
            Ok(x) => r matches Ok(y) && y@ == x,
            Err(f) => r matches Err(e) && e@ == f,
        },
{
    let mut archive = match zip::ZipArchive::new(std::io::Cursor::new(content)) {
        Ok(a) => a,
        Err(e) => return Err(ZipEntryError::Open(e.to_string())),
    };
    let mut file = match archive.by_name(name) {
        Ok(f) => f,
        Err(_) => return Err(ZipEntryError::Missing),
    };
    let mut buf = Vec::new();
    match std::io::Read::read_to_end(&mut file, &mut buf) {
        Ok(_) => Ok(buf),
        Err(e) => Err(ZipEntryError::Read(e.to_string())),
    }
}

/// The message for an archive that cannot be opened.
pub open spec fn open_failed(m: Seq<char>) -> Seq<char> {
    "Failed to open iWork ZIP: "@ + m
}

/// The names that end with `.iwa`, in order.
pub open spec fn iwa_names(names: Seq<Seq<char>>) -> Seq<Seq<char>>
    decreases names.len(),
{
    if names.len() == 0 {
        seq![]
    } else {
        let r = iwa_names(names.drop_last());
        if text::ends_with(names.last(), ".iwa"@) {
            r.push(names.last())
        } else {
            r
        }
    }
}

/// A parsing error with message `m`.
fn parsing_error(m: Vec<char>) -> (r: KreuzbergError)
    ensures
        r matches KreuzbergError::Parsing(x) && x@ == m@,
{
    KreuzbergError::Parsing(chars_string(m.as_slice()))
}

/// The paths of the `.iwa` entries of an iWork ZIP archive.
pub fn collect_iwa_paths(content: &[u8]) -> (r: Result<Vec<String>, KreuzbergError>)
    ensures
        match zip_names(content@) {
            Ok(names) => r matches Ok(p) && strs(p@) == iwa_names(names),
            Err(m) => r matches Err(KreuzbergError::Parsing(x)) && x@ == open_failed(m),
        },
{
    match zip_entry_names(content) {
        Err(e) => {
            let mut m = str_chars("Failed to open iWork ZIP: ");
            text::push_str(&mut m, e.as_str());
            Err(parsing_error(m))
        },
        Ok(names) => {
            let ghost nv = strs(names@);
            let mut out: Vec<String> = Vec::new();
            let mut k: usize = 0;
            assert(nv.take(0) =~= Seq::<Seq<char>>::empty());
            assert(strs(out@) =~= Seq::<Seq<char>>::empty());
            while k < names.len()
                invariant
                    k <= names@.len(),
                    nv == strs(names@),
                    strs(out@) == iwa_names(nv.take(k as int)),
                decreases names@.len() - k,
            {
                assert(nv.take(k + 1).drop_last() =~= nv.take(k as int));
                assert(nv.take(k + 1).last() == names@[k as int]@);
                let c = str_chars(names[k].as_str());
                let suffix = str_chars(".iwa");
                if text::ends_with_exec(c.as_slice(), suffix.as_slice()) {
                    let ghost before = strs(out@);
                    out.push(names[k].clone());
                    assert(strs(out@) =~= before.push(names@[k as int]@));
                }
                k = k + 1;
            }
            assert(nv.take(k as int) =~= nv);
            Ok(out)
        },
    }
}

/// What reading and decoding the IWA entry `path` gives: its protobuf payload, or
/// the message of the parsing error.
pub open spec fn iwa_file(content: Seq<u8>, path: Seq<char>) -> Result<Seq<u8>, Seq<char>> {
    match zip_entry(content, path) {
        Err(EntryFailure::Open(m)) => Err(open_failed(m)),
        Err(EntryFailure::Missing) => Err("IWA file not found in archive: "@ + path),
        Err(EntryFailure::Read(m)) => Err("Failed to read IWA file "@ + path + ": "@ + m),
        Ok(raw) => match iwa_stream(raw) {
            Ok(d) => Ok(d),
            Err(m) => Err("Failed to decode IWA "@ + path + ": "@ + m),
        },
    }
}

/// Reads the IWA entry `path` of an iWork ZIP archive and decodes its chunks.
pub fn read_iwa_file(content: &[u8], path: &str) -> (r: Result<Vec<u8>, KreuzbergError>)
    ensures
        match iwa_file(content@, path@) {
            Ok(d) => r matches Ok(v) && v@ == d,
            Err(m) => r matches Err(KreuzbergError::Parsing(x)) && x@ == m,
        },
{
    match zip_read_entry(content, path) {
        Err(ZipEntryError::Open(e)) => {
            let mut m = str_chars("Failed to open iWork ZIP: ");
            text::push_str(&mut m, e.as_str());
            Err(parsing_error(m))
        },
        Err(ZipEntryError::Missing) => {
            let mut m = str_chars("IWA file not found in archive: ");
            text::push_str(&mut m, path);
            Err(parsing_error(m))
        },
        Err(ZipEntryError::Read(e)) => {
            let mut m = str_chars("Failed to read IWA file ");
            text::push_str(&mut m, path);
            text::push_str(&mut m, ": ");
            text::push_str(&mut m, e.as_str());
            Err(parsing_error(m))
        },
        Ok(raw) => match decode_iwa_stream(raw.as_slice()) {
            Ok(d) => Ok(d),
            Err(e) => {
                let mut m = str_chars("Failed to decode IWA ");
                text::push_str(&mut m, path);
                text::push_str(&mut m, ": ");
                text::push_str(&mut m, e.as_str());
                Err(parsing_error(m))
            },
        },
    }
}

/// The texts of the IWA entries `paths` (each read whole and Snappy-decompressed,
/// entries that fail or exceed the size limit skipped), in order.
pub open spec fn iwa_texts(content: Seq<u8>, paths: Seq<Seq<char>>) -> Seq<Seq<char>>
    decreases paths.len(),
{
    if paths.len() == 0 {
        seq![]
    } else {
        iwa_texts(content, paths.drop_last()) + match zip_entry(content, paths.last()) {
            Ok(raw) => match snappy_raw(raw) {
                Ok(d) => if d.len() > MAX_IWA_DECOMPRESSED_SIZE {
                    seq![]
                } else {
                    proto_texts(d)
                },
                Err(_) => seq![],
            },
            Err(_) => seq![],
        }
    }
}

/// Lines joined with line breaks.
pub open spec fn join_lines(parts: Seq<Seq<char>>) -> Seq<char>
    decreases parts.len(),
{
    if parts.len() == 0 {
        seq![]
    } else if parts.len() == 1 {
        parts[0]
    } else {
        join_lines(parts.drop_last()) + "\n"@ + parts.last()
    }
}

/// Joins strings with line breaks.
fn join_lines_exec(parts: &Vec<String>) -> (r: String)
    ensures
        r@ == join_lines(strs(parts@)),
{
    let ghost pv = strs(parts@);
    let mut out: Vec<char> = Vec::new();
    let mut k: usize = 0;
    assert(pv.take(0) =~= Seq::<Seq<char>>::empty());
    while k < parts.len()
        invariant
            k <= parts@.len(),
            pv == strs(parts@),
            out@ == join_lines(pv.take(k as int)),
        decreases parts@.len() - k,
    {
        assert(pv.take(k + 1).drop_last() =~= pv.take(k as int));
        assert(pv.take(k + 1).last() == parts@[k as int]@);
        if k > 0 {
            push_str(&mut out, "\n");
        } else {
            assert(out@ =~= Seq::<char>::empty());
        }
        push_str(&mut out, parts[k].as_str());
        assert(k == 0 ==> out@ =~= pv.take(1)[0]);
        k = k + 1;
    }
    assert(pv.take(k as int) =~= pv);
    chars_string(out.as_slice())
}

/// The text of the IWA entries `iwa_paths` of an iWork ZIP archive, one text
/// string per line.
pub fn extract_text_from_iwa_files(content: &[u8], iwa_paths: &[String]) -> (r: Result<String, KreuzbergError>)
    ensures
        match zip_names(content@) {
            Ok(_) => r matches Ok(t) && t@ == join_lines(iwa_texts(content@, strs(iwa_paths@))),
            Err(m) => r matches Err(KreuzbergError::Parsing(x)) && x@ == open_failed(m),
        },
{
    match zip_entry_names(content) {
        Err(e) => {
            let mut m = str_chars("Failed to open iWork ZIP: ");
            text::push_str(&mut m, e.as_str());
            return Err(parsing_error(m));
        },
        Ok(_) => {},
    }
    let ghost pv = strs(iwa_paths@);
    let mut all: Vec<String> = Vec::new();
    let mut k: usize = 0;
    assert(pv.take(0) =~= Seq::<Seq<char>>::empty());
    assert(strs(all@) =~= Seq::<Seq<char>>::empty());
    while k < iwa_paths.len()
        invariant
            k <= iwa_paths@.len(),
            pv == strs(iwa_paths@),
            strs(all@) == iwa_texts(content@, pv.take(k as int)),
        decreases iwa_paths@.len() - k,
    {
        assert(pv.take(k + 1).drop_last() =~= pv.take(k as int));
        assert(pv.take(k + 1).last() == iwa_paths@[k as int]@);
        let ghost before = strs(all@);
        match zip_read_entry(content, iwa_paths[k].as_str()) {
            Ok(raw) => match snappy_decompress(raw.as_slice()) {
                Ok(d) => {
                    if d.len() > MAX_IWA_DECOMPRESSED_SIZE {
                        assert(before + Seq::<Seq<char>>::empty() =~= before);
                    } else {
                        let texts = extract_text_from_proto(d.as_slice());
                        extend_strings(&mut all, texts);
                    }
                },
                Err(_) => {
                    assert(before + Seq::<Seq<char>>::empty() =~= before);
                },
            },
            Err(_) => {
                assert(before + Seq::<Seq<char>>::empty() =~= before);
            },
        }
        k = k + 1;
    }
    assert(pv.take(k as int) =~= pv);
    Ok(join_lines_exec(&all))
}

/// The plist metadata entry of the archive is parseable (see `plist_ok`) when it
/// is UTF-8 text.
pub open spec fn zip_plist_ok(content: Seq<u8>) -> bool {
    match zip_entry(content, "Metadata/Properties.plist"@) {
        Ok(b) => vstd::utf8::valid_utf8(b) ==> plist_ok(trimmed_lines(vstd::utf8::decode_utf8(b)), 0),
        Err(_) => true,
    }
}

/// The metadata of an iWork archive: the plist properties, then the document
/// identifier (trimmed, non-empty) as title when there is none yet; nothing when
/// the archive does not open or an entry is missing or not UTF-8.
pub open spec fn zip_metadata(content: Seq<u8>) -> MetadataView {
    match zip_names(content) {
        Err(_) => empty_metadata(),
        Ok(_) => {
            let m1 = match zip_entry(content, "Metadata/Properties.plist"@) {
                Ok(b) => if vstd::utf8::valid_utf8(b) {
                    plist_scan(trimmed_lines(vstd::utf8::decode_utf8(b)), 0, empty_metadata())
                } else {
                    empty_metadata()
                },
                Err(_) => empty_metadata(),
            };
            match zip_entry(content, "Metadata/DocumentIdentifier"@) {
                Ok(b) => if vstd::utf8::valid_utf8(b) {
                    let t = text::trim(vstd::utf8::decode_utf8(b));
                    if t.len() > 0 && m1.title is None {
                        MetadataView { title: Some(t), ..m1 }
                    } else {
                        m1
                    }
                } else {
                    m1
                },
                Err(_) => m1,
            }
        },
    }
}

/// Reads the metadata of an iWork archive from `Metadata/Properties.plist` and
/// `Metadata/DocumentIdentifier`.
pub(crate) fn extract_metadata_from_zip(content: &[u8]) -> (r: Metadata)
    requires
        zip_plist_ok(content@),
    ensures
        r@ == zip_metadata(content@),
{
    let mut metadata = Metadata::new();
    if zip_entry_names(content).is_err() {
        return metadata;
    }
    match zip_read_entry(content, "Metadata/Properties.plist") {
        Ok(buf) => match utf8_text(buf.as_slice()) {
            Some(t) => parse_plist_metadata(t.as_str(), &mut metadata),
            None => {},
        },
        Err(_) => {},
    }
    match zip_read_entry(content, "Metadata/DocumentIdentifier") {
        Ok(buf) => match utf8_text(buf.as_slice()) {
            Some(t) => {
                let c = str_chars(t.as_str());
                let tr = text::trim_vec(c.as_slice());
                if tr.len() > 0 && metadata.title.is_none() {
                    metadata.title = Some(chars_string(tr.as_slice()));
                }
            },
            None => {},
        },
        Err(_) => {},
    }
    metadata
}

/// Whether the archive's plist metadata can be parsed (see `zip_plist_ok`).
pub fn zip_plist_well_formed(content: &[u8]) -> (r: bool)
    ensures
        r == zip_plist_ok(content@),
{
    match zip_read_entry(content, "Metadata/Properties.plist") {
        Ok(buf) => match utf8_text(buf.as_slice()) {
            Some(t) => plist_well_formed(t.as_str()),
            None => true,
        },
        Err(_) => true,
    }
}

/// The metadata of an iWork archive, `None` when its plist holds a tag whose
/// closing tag comes first (which the plist scan cannot read).
pub fn try_extract_metadata_from_zip(content: &[u8]) -> (r: Option<Metadata>)
    ensures
        zip_plist_ok(content@) ==> (r matches Some(m) && m@ == zip_metadata(content@)),
        !zip_plist_ok(content@) ==> r is None,
{
    if zip_plist_well_formed(content) {
        Some(extract_metadata_from_zip(content))
    } else {
        None
    }
}

// ---------------------------------------------------------------------------
// Shared pieces of the three extractors
// ---------------------------------------------------------------------------

/// The last `/`-separated segment of a path.
pub open spec fn file_name(p: Seq<char>) -> Seq<char>
    decreases p.len(),
{
    if p.len() == 0 {
        p
    } else if p.last() == '/' {
        seq![]
    } else {
        file_name(p.drop_last()).push(p.last())
    }
}

/// The last `/`-separated segment of a path.
pub fn file_name_exec(p: &[char]) -> (r: Vec<char>)
    ensures
        r@ == file_name(p@),
{
    let mut k = p.len();
    while k > 0 && p[k - 1] != '/'
        invariant
            k <= p@.len(),
            forall|j: int| k <= j < p@.len() ==> p@[j] != '/',
        decreases k,
    {
        k = k - 1;
    }
    let r = slice_vec(p, k, p.len());
    proof {
        lemma_file_name(p@, k as nat);
    }
    r
}

proof fn lemma_file_name(p: Seq<char>, k: nat)
    requires
        k <= p.len(),
        forall|j: int| k <= j < p.len() ==> p[j] != '/',
        k == 0 || p[k - 1] == '/',
    ensures
        file_name(p) == p.subrange(k as int, p.len() as int),
    decreases p.len(),
{
    if p.len() > k {
        lemma_file_name(p.drop_last(), k);
        assert(p.subrange(k as int, p.len() - 1).push(p.last()) =~= p.subrange(k as int, p.len() as int));
    } else if p.len() > 0 {
        assert(p.subrange(k as int, p.len() as int) =~= Seq::<char>::empty());
    }
}

/// The texts of the IWA entries `paths` read and decoded with `read_iwa_file`,
/// entries that fail skipped, in order.
pub open spec fn framed_texts(content: Seq<u8>, paths: Seq<Seq<char>>) -> Seq<Seq<char>>
    decreases paths.len(),
{
    if paths.len() == 0 {
        seq![]
    } else {
        framed_texts(content, paths.drop_last()) + match iwa_file(content, paths.last()) {
            Ok(d) => proto_texts(d),
            Err(_) => seq![],
        }
    }
}

/// The texts of the IWA entries `paths`.
pub fn read_texts(content: &[u8], paths: &Vec<String>) -> (r: Vec<String>)
    ensures
        strs(r@) == framed_texts(content@, strs(paths@)),
{
    let ghost pv = strs(paths@);
    let mut all: Vec<String> = Vec::new();
    let mut k: usize = 0;
    assert(pv.take(0) =~= Seq::<Seq<char>>::empty());
    assert(strs(all@) =~= Seq::<Seq<char>>::empty());
    while k < paths.len()
        invariant
            k <= paths@.len(),
            pv == strs(paths@),
            strs(all@) == framed_texts(content@, pv.take(k as int)),
        decreases paths@.len() - k,
    {
        assert(pv.take(k + 1).drop_last() =~= pv.take(k as int));
        assert(pv.take(k + 1).last() == paths@[k as int]@);
        let ghost before = strs(all@);
        match read_iwa_file(content, paths[k].as_str()) {
            Ok(d) => {
                let texts = extract_text_from_proto(d.as_slice());
                extend_strings(&mut all, texts);
            },
            Err(_) => {
                assert(before + Seq::<Seq<char>>::empty() =~= before);
            },
        }
        k = k + 1;
    }
    assert(pv.take(k as int) =~= pv);
    all
}

/// The strings of `s` that `p` keeps, in order.
pub open spec fn keep(s: Seq<Seq<char>>, p: spec_fn(Seq<char>) -> bool) -> Seq<Seq<char>>
    decreases s.len(),
{
    if s.len() == 0 {
        seq![]
    } else if p(s.last()) {
        keep(s.drop_last(), p).push(s.last())
    } else {
        keep(s.drop_last(), p)
    }
}

/// The strings of `s` that do not occur in `other`, in order.
pub fn without(s: Vec<String>, other: &Vec<String>) -> (r: Vec<String>)
    ensures
        strs(r@) == keep(strs(s@), |t: Seq<char>| !strs(other@).contains(t)),
{
    let ghost sv = strs(s@);
    let mut out: Vec<String> = Vec::new();
    let mut k: usize = 0;
    assert(sv.take(0) =~= Seq::<Seq<char>>::empty());
    assert(strs(out@) =~= Seq::<Seq<char>>::empty());
    while k < s.len()
        invariant
            k <= s@.len(),
            sv == strs(s@),
            strs(out@) == keep(sv.take(k as int), |t: Seq<char>| !strs(other@).contains(t)),
        decreases s@.len() - k,
    {
        assert(sv.take(k + 1).drop_last() =~= sv.take(k as int));
        assert(sv.take(k + 1).last() == s@[k as int]@);
        if !contains_string(other, &s[k]) {
            let ghost before = strs(out@);
            out.push(s[k].clone());
            assert(strs(out@) =~= before.push(s@[k as int]@));
        }
        k = k + 1;
    }
    assert(sv.take(k as int) =~= sv);
    out
}

} // verus!
