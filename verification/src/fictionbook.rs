//! FictionBook (FB2): the extractor's description and the XML entity resolution
//! its text extraction relies on.

use vstd::prelude::*;
use crate::plugins::{ExtractorInfo, InfoView, KreuzbergError, VERSION, make_info, str_views};
use crate::text;
use crate::text::{chars_string, slice_vec, str_chars, str_eq};

verus! {

/// FictionBook document extractor: FictionBook 2.0 with section hierarchy and
/// inline formatting.
pub struct FictionBookExtractor;
impl Default for FictionBookExtractor {
    fn default() -> (r: Self)
        ensures
            r == FictionBookExtractor,
    {
        FictionBookExtractor
    }
}
impl FictionBookExtractor {
    /// A new extractor.
    pub fn new() -> (r: Self)
        ensures
            r == FictionBookExtractor,
    {
        FictionBookExtractor
    }

    /// The extractor's name.
    pub fn name(&self) -> (r: &'static str)
        ensures
            r@ == "fictionbook-extractor"@,
    {
        "fictionbook-extractor"
    }

    /// The library version.
    pub fn version(&self) -> (r: String)
        ensures
            r@ == VERSION@,
    {
        VERSION.to_owned()
    }

    /// Prepares the extractor; nothing can fail.
    pub fn initialize(&self) -> (r: Result<(), KreuzbergError>)
        ensures
            r is Ok,
    {
        Ok(())
    }

    /// Releases the extractor; nothing can fail.
    pub fn shutdown(&self) -> (r: Result<(), KreuzbergError>)
        ensures
            r is Ok,
    {
        Ok(())
    }

    /// What the extractor does.
    pub fn description(&self) -> (r: &'static str)
        ensures
            r@ == "Extracts content and metadata from FictionBook documents (FB2 format)"@,
    {
        "Extracts content and metadata from FictionBook documents (FB2 format)"
    }

    /// Who wrote the extractor.
    pub fn author(&self) -> (r: &'static str)
        ensures
            r@ == "Kreuzberg Team"@,
    {
        "Kreuzberg Team"
    }

    /// The MIME types the extractor handles.
    pub fn supported_mime_types(&self) -> (r: Vec<&'static str>)
        ensures
            str_views(r@) == seq!["application/x-fictionbook+xml"@, "text/x-fictionbook"@, "application/x-fictionbook"@],
    {
        let mut v: Vec<&'static str> = Vec::new();
        v.push("application/x-fictionbook+xml");
        v.push("text/x-fictionbook");
        v.push("application/x-fictionbook");
        assert(str_views(v@) =~= seq!["application/x-fictionbook+xml"@, "text/x-fictionbook"@, "application/x-fictionbook"@]);
        v
    }

    /// The extractor's priority among those handling the same MIME type.
    pub fn priority(&self) -> (r: i32)
        ensures
            r == 50,
    {
        50
    }

    /// The description the registry keeps of this extractor.
    pub open spec fn descriptor() -> InfoView {
        InfoView { name: "fictionbook-extractor"@, priority: 50, mime_types: seq!["application/x-fictionbook+xml"@, "text/x-fictionbook"@, "application/x-fictionbook"@] }
    }

    /// The description the registry keeps.
    pub fn info(&self) -> (r: ExtractorInfo)
        ensures
            r@ == Self::descriptor(),
    {
        let m = self.supported_mime_types();
        make_info(self.name(), self.priority(), m.as_slice())
    }
}

// ---------------------------------------------------------------------------
// XML references
// ---------------------------------------------------------------------------

/// The text of the predefined entities `amp`, `lt`, `gt`, `quot`, `apos` and of
/// `nbsp`.
pub open spec fn entity(name: Seq<char>) -> Option<Seq<char>> {
    if name == "amp"@ {
        Some("&"@)
    } else if name == "lt"@ {
        Some("<"@)
    } else if name == "gt"@ {
        Some(">"@)
    } else if name == "quot"@ {
        Some("\""@)
    } else if name == "apos"@ {
        Some("'"@)
    } else if name == "nbsp"@ {
        Some("\u{00A0}"@)
    } else {
        None
    }
}

/// What `String::from_utf8_lossy` gives for `bytes`: their text, with each
/// ill-formed sequence replaced by U+FFFD.
pub uninterp spec fn utf8_lossy(bytes: Seq<u8>) -> Seq<char>;

/// Calls `String::from_utf8_lossy`; the result is named `utf8_lossy(bytes)`, and
/// on well-formed UTF-8 it is the text the bytes encode.
#[verifier::external_body]
pub(crate) fn from_utf8_lossy(bytes: &[u8]) -> (r: String)
    ensures
        r@ == utf8_lossy(bytes@),
        vstd::utf8::valid_utf8(bytes@) ==> r@ == vstd::utf8::decode_utf8(bytes@),
{
    String::from_utf8_lossy(bytes).into_owned()
}

/// Calls `char::from_u32`: the character of that scalar value, `None` above
/// U+10FFFF and for surrogates.
#[verifier::external_body]
fn char_from_u32(v: u32) -> (r: Option<char>)
    ensures
        r is Some <==> (v <= 0x10FFFF && !(0xD800 <= v <= 0xDFFF)),
        r matches Some(c) ==> c == v as char,
{
    char::from_u32(v)
}

/// The value of a digit in base 16 (or 10).
pub open spec fn digit_value(c: char, radix: u32) -> Option<nat> {
    if '0' <= c <= '9' && (c as u32) - ('0' as u32) < radix {
        Some(((c as u32) - ('0' as u32)) as nat)
    } else if radix == 16 && 'a' <= c <= 'f' {
        Some(((c as u32) - ('a' as u32) + 10) as nat)
    } else if radix == 16 && 'A' <= c <= 'F' {
        Some(((c as u32) - ('A' as u32) + 10) as nat)
    } else {
        None
    }
}

/// The value of the digits `s`, when all are digits of the radix.
pub open spec fn digits_value(s: Seq<char>, radix: u32) -> Option<nat>
    decreases s.len(),
{
    if s.len() == 0 {
        Some(0)
    } else {
        match (digits_value(s.drop_last(), radix), digit_value(s.last(), radix)) {
            (Some(a), Some(d)) => Some((a * radix + d) as nat),
            _ => None,
        }
    }
}

/// What `u32::from_str_radix` accepts: an optional `+`, then at least one digit,
/// with a value that fits in 32 bits.
pub open spec fn parse_u32(s: Seq<char>, radix: u32) -> Option<u32> {
    let digits = if s.len() > 0 && s[0] == '+' {
        s.drop_first()
    } else {
        s
    };
    if digits.len() == 0 {
        None
    } else {
        match digits_value(digits, radix) {
            Some(v) => if v <= u32::MAX {
                Some(v as u32)
            } else {
                None
            },
            None => None,
        }
    }
}

/// `u32::from_str_radix` for radix 10 and 16.
fn parse_u32_exec(s: &[char], radix: u32) -> (r: Option<u32>)
    requires
        radix == 10 || radix == 16,
    ensures
        r == parse_u32(s@, radix),
{
    let start: usize = if s.len() > 0 && s[0] == '+' {
        1
    } else {
        0
    };
    let ghost digits = s@.skip(start as int);
    assert(digits =~= (if s@.len() > 0 && s@[0] == '+' {
        s@.drop_first()
    } else {
        s@
    }));
    if start == s.len() {
        return None;
    }
    let mut v: u64 = 0;
    let mut k = start;
    assert(s@.subrange(start as int, k as int) =~= Seq::<char>::empty());
    while k < s.len()
        invariant
            start <= k <= s@.len(),
            digits == s@.skip(start as int),
            radix == 10 || radix == 16,
            parse_u32(s@, radix) == match digits_value(digits, radix) {
                Some(x) => if x <= u32::MAX {
                    Some(x as u32)
                } else {
                    None
                },
                None => None,
            },
            digits_value(s@.subrange(start as int, k as int), radix) == Some(v as nat),
            v <= u32::MAX,
        decreases s@.len() - k,
    {
        let c = s[k];
        let d: u64 = if '0' <= c && c <= '9' && (c as u32) - ('0' as u32) < radix {
            ((c as u32) - ('0' as u32)) as u64
        } else if radix == 16 && 'a' <= c && c <= 'f' {
            ((c as u32) - ('a' as u32) + 10) as u64
        } else if radix == 16 && 'A' <= c && c <= 'F' {
            ((c as u32) - ('A' as u32) + 10) as u64
        } else {
            assert(digit_value(c, radix) is None);
            assert(s@.subrange(start as int, s@.len() as int)[k - start] == c);
            proof {
                lemma_digits_none(s@.subrange(start as int, s@.len() as int), (k - start) as nat, radix);
                assert(s@.subrange(start as int, s@.len() as int) =~= digits);
                assert(s@.subrange(start as int, s@.len() as int).take((k - start) + 1) =~= s@.subrange(start as int, k + 1));
                assert(s@.subrange(start as int, k + 1).drop_last() =~= s@.subrange(start as int, k as int));
            }
            return None;
        };
        assert(s@.subrange(start as int, k + 1).drop_last() =~= s@.subrange(start as int, k as int));
        assert(v * (radix as u64) <= 0xFFFF_FFFF * 16) by (nonlinear_arith)
            requires
                v <= 0xFFFF_FFFF,
                radix <= 16,
        ;
        let nv = v * (radix as u64) + d;
        if nv > 0xFFFF_FFFF {
            proof {
                let sub = s@.subrange(start as int, s@.len() as int);
                assert(sub =~= digits);
                assert(sub.take((k - start) + 1) =~= s@.subrange(start as int, k + 1));
                assert(s@.subrange(start as int, k + 1).last() == c);
                assert(digit_value(c, radix) == Some(d as nat));
                assert(digits_value(s@.subrange(start as int, k + 1), radix) == Some(nv as nat));
                lemma_digits_grow(sub, (k - start + 1) as nat, radix);
            }
            return None;
        }
        v = nv;
        k = k + 1;
    }
    assert(s@.subrange(start as int, k as int) =~= digits);
    Some(v as u32)
}

/// A non-digit makes every longer prefix, and the whole, not a number.
proof fn lemma_digits_none(s: Seq<char>, k: nat, radix: u32)
    requires
        k < s.len(),
        digit_value(s[k as int], radix) is None,
    ensures
        digits_value(s.take(k + 1int), radix) is None,
        digits_value(s, radix) is None,
    decreases s.len(),
{
    assert(s.take(k + 1int).last() == s[k as int]);
    if s.len() > k + 1 {
        lemma_digits_none(s.drop_last(), k, radix);
        assert(s.drop_last().take(k + 1int) =~= s.take(k + 1int));
    } else {
        assert(s.take(k + 1int) =~= s);
    }
}

/// Digits only add: once a prefix is too large the whole is too (or not a number).
proof fn lemma_digits_grow(s: Seq<char>, k: nat, radix: u32)
    requires
        0 < k <= s.len(),
        radix == 10 || radix == 16,
        digits_value(s.take(k as int), radix) matches Some(v) && v > u32::MAX,
    ensures
        digits_value(s, radix) matches Some(v) ==> v > u32::MAX,
    decreases s.len(),
{
    if s.len() > k {
        assert(s.drop_last().take(k as int) =~= s.take(k as int));
        lemma_digits_grow(s.drop_last(), k, radix);
        if let (Some(a), Some(d)) = (digits_value(s.drop_last(), radix), digit_value(s.last(), radix)) {
            assert(a * radix >= a) by (nonlinear_arith)
                requires
                    radix >= 1,
            ;
        }
    } else {
        assert(s.take(k as int) =~= s);
    }
}

/// The text a general reference stands for: an entity, or a character reference
/// `#n` / `#xh`; empty when it is neither.
pub open spec fn general_ref(name: Seq<char>) -> Seq<char> {
    match entity(name) {
        Some(e) => e,
        None => if name.len() > 0 && name[0] == '#' {
            let num = name.drop_first();
            let code = if num.len() > 0 && num[0] == 'x' {
                parse_u32(num.drop_first(), 16)
            } else {
                parse_u32(num, 10)
            };
            match code {
                Some(v) => if v <= 0x10FFFF && !(0xD800 <= v <= 0xDFFF) {
                    seq![v as char]
                } else {
                    seq![]
                },
                None => seq![],
            }
        } else {
            seq![]
        },
    }
}

/// The text of an XML entity reference name: the predefined entities and `nbsp`;
/// `None` for anything else (character references included).
pub fn resolve_entity(name: &str) -> (r: Option<&'static str>)
    ensures
        r matches Some(t) ==> entity(name@) == Some(t@),
        r is None ==> entity(name@) is None,
{
    if str_eq(name, "amp") {
        Some("&")
    } else if str_eq(name, "lt") {
        Some("<")
    } else if str_eq(name, "gt") {
        Some(">")
    } else if str_eq(name, "quot") {
        Some("\"")
    } else if str_eq(name, "apos") {
        Some("'")
    } else if str_eq(name, "nbsp") {
        Some("\u{00A0}")
    } else {
        None
    }
}

/// Resolves an XML general reference (the bytes between `&` and `;`, read as
/// UTF-8 with replacement characters): an entity, or a character reference.
pub fn resolve_general_ref(ref_bytes: &[u8]) -> (r: String)
    ensures
        r@ == general_ref(utf8_lossy(ref_bytes@)),
        vstd::utf8::valid_utf8(ref_bytes@) ==> r@ == general_ref(vstd::utf8::decode_utf8(ref_bytes@)),
{
    let name = from_utf8_lossy(ref_bytes);
    if let Some(e) = resolve_entity(name.as_str()) {
        return e.to_owned();
    }
    let c = str_chars(name.as_str());
    if c.len() > 0 && c[0] == '#' {
        let num = slice_vec(c.as_slice(), 1, c.len());
        assert(num@ =~= c@.drop_first());
        let code = if num.len() > 0 && num[0] == 'x' {
            let hex = slice_vec(num.as_slice(), 1, num.len());
            assert(hex@ =~= num@.drop_first());
            parse_u32_exec(hex.as_slice(), 16)
        } else {
            parse_u32_exec(num.as_slice(), 10)
        };
        if let Some(v) = code {
            if let Some(ch) = char_from_u32(v) {
                let one: [char; 1] = [ch];
                assert(one@ =~= seq![v as char]);
                return chars_string(&one);
            }
        }
    }
    String::new()
}

} // verus!
