//! Kana utilities: hiragana, katakana and narrow katakana.

use vstd::prelude::*;
use crate::text::chars_of;

verus! {

/// Kinds of kana.
#[derive(Debug, Clone, Copy, PartialEq, Eq, Structural)]
pub enum KanaType {
    /// Hiragana.
    Hiragana,
    /// Katakana.
    Katakana,
    /// Half-width katakana.
    HalfwidthKatakana,
}

/// Whether `c` is in the hiragana table (`ぁ` U+3041 through `ゖ` U+3096).
pub open spec fn spec_is_table_hiragana(c: char) -> bool {
    0x3041 <= (c as u32) <= 0x3096
}

/// Whether `c` is in the katakana table (`ァ` U+30A1 through `ヶ` U+30F6).
pub open spec fn spec_is_table_katakana(c: char) -> bool {
    0x30A1 <= (c as u32) <= 0x30F6
}

/// The katakana for a hiragana of the table (each one is 0x60 code points
/// above); other characters are unchanged.
pub open spec fn spec_katakana_of(c: char) -> char {
    if spec_is_table_hiragana(c) {
        ((c as u32) + 0x60) as char
    } else {
        c
    }
}

/// The hiragana for a katakana of the table; other characters are unchanged.
pub open spec fn spec_hiragana_of(c: char) -> char {
    if spec_is_table_katakana(c) {
        ((c as u32) - 0x60) as char
    } else {
        c
    }
}

/// The narrow form of one katakana character. The narrow-form table has an
/// entry for each katakana letter and mark (ア to ン, the voiced and
/// semi-voiced letters, the small letters and ー), and each entry maps the
/// letter to itself; characters without an entry are unchanged too. So the
/// narrow form of every character is that character.
pub open spec fn spec_narrow_of(c: char) -> char {
    c
}

/// `char::from_u32`: the character with a code point, if it is a scalar value.
pub assume_specification[ core::char::from_u32 ](i: u32) -> (r: Option<char>)
    ensures
        vstd::utf8::is_scalar(i) ==> r == Some(i as char),
        !vstd::utf8::is_scalar(i) ==> r is None,
;

fn katakana_of(c: char) -> (r: char)
    ensures
        r == spec_katakana_of(c),
{
    let u = c as u32;
    if 0x3041 <= u && u <= 0x3096 {
        match core::char::from_u32(u + 0x60) {
            Some(k) => k,
            None => c,
        }
    } else {
        c
    }
}

fn hiragana_of(c: char) -> (r: char)
    ensures
        r == spec_hiragana_of(c),
{
    let u = c as u32;
    if 0x30A1 <= u && u <= 0x30F6 {
        match core::char::from_u32(u - 0x60) {
            Some(h) => h,
            None => c,
        }
    } else {
        c
    }
}

fn narrow_of(c: char) -> (r: char)
    ensures
        r == spec_narrow_of(c),
{
    match c {
        'ア' | 'イ' | 'ウ' | 'エ' | 'オ' | 'カ' | 'キ' | 'ク' | 'ケ' | 'コ' | 'サ' | 'シ' | 'ス' | 'セ' | 'ソ' | 'タ' | 'チ' | 'ツ' | 'テ' | 'ト' | 'ナ' | 'ニ' | 'ヌ' | 'ネ' | 'ノ' | 'ハ' | 'ヒ' | 'フ' | 'ヘ' | 'ホ' | 'マ' | 'ミ' | 'ム' | 'メ' | 'モ' | 'ヤ' | 'ユ' | 'ヨ' | 'ラ' | 'リ' | 'ル' | 'レ' | 'ロ' | 'ワ' | 'ヲ' | 'ン' | 'ガ' | 'ギ' | 'グ' | 'ゲ' | 'ゴ' | 'ザ' | 'ジ' | 'ズ' | 'ゼ' | 'ゾ' | 'ダ' | 'ヂ' | 'ヅ' | 'デ' | 'ド' | 'バ' | 'ビ' | 'ブ' | 'ベ' | 'ボ' | 'パ' | 'ピ' | 'プ' | 'ペ' | 'ポ' | 'ァ' | 'ィ' | 'ゥ' | 'ェ' | 'ォ' | 'ャ' | 'ュ' | 'ョ' | 'ッ' | 'ー' => c,
        _ => c,
    }
}

/// Converts katakana of the table to hiragana; other characters are unchanged.
pub fn to_hiragana(input: &str) -> (r: String)
    ensures
        r@ == input@.map_values(|c: char| spec_hiragana_of(c)),
{
    let chars = chars_of(input);
    let mut out = String::new();
    let mut i: usize = 0;
    while i < chars.len()
        invariant
            i <= chars.len(),
            chars@ == input@,
            out@ == chars@.take(i as int).map_values(|c: char| spec_hiragana_of(c)),
        decreases chars.len() - i,
    {
        out.push(hiragana_of(chars[i]));
        i = i + 1;
        proof {
            assert(out@ =~= chars@.take(i as int).map_values(|c: char| spec_hiragana_of(c)));
        }
    }
    proof {
        assert(chars@.take(chars@.len() as int) =~= chars@);
    }
    out
}

/// Converts hiragana of the table to katakana; other characters are unchanged.
pub fn to_katakana(input: &str) -> (r: String)
    ensures
        r@ == input@.map_values(|c: char| spec_katakana_of(c)),
{
    let chars = chars_of(input);
    let mut out = String::new();
    let mut i: usize = 0;
    while i < chars.len()
        invariant
            i <= chars.len(),
            chars@ == input@,
            out@ == chars@.take(i as int).map_values(|c: char| spec_katakana_of(c)),
        decreases chars.len() - i,
    {
        out.push(katakana_of(chars[i]));
        i = i + 1;
        proof {
            assert(out@ =~= chars@.take(i as int).map_values(|c: char| spec_katakana_of(c)));
        }
    }
    proof {
        assert(chars@.take(chars@.len() as int) =~= chars@);
    }
    out
}

/// Converts to katakana, then each katakana to its narrow form.
pub fn to_halfwidth_katakana(input: &str) -> (r: String)
    ensures
        r@ == input@.map_values(|c: char| spec_narrow_of(spec_katakana_of(c))),
{
    let katakana = to_katakana(input);
    let chars = chars_of(katakana.as_str());
    let mut out = String::new();
    let mut i: usize = 0;
    while i < chars.len()
        invariant
            i <= chars.len(),
            chars@ == input@.map_values(|c: char| spec_katakana_of(c)),
            out@ == chars@.take(i as int).map_values(|c: char| spec_narrow_of(c)),
        decreases chars.len() - i,
    {
        out.push(narrow_of(chars[i]));
        i = i + 1;
        proof {
            assert(out@ =~= chars@.take(i as int).map_values(|c: char| spec_narrow_of(c)));
        }
    }
    proof {
        assert(chars@.take(chars@.len() as int) =~= chars@);
        assert(out@ =~= input@.map_values(|c: char| spec_narrow_of(spec_katakana_of(c))));
    }
    out
}

/// Law: a hiragana of the table, turned into katakana and back, is unchanged.
pub proof fn lemma_hiragana_katakana_roundtrip(c: char)
    requires
        spec_is_table_hiragana(c),
    ensures
        spec_is_table_katakana(spec_katakana_of(c)),
        spec_hiragana_of(spec_katakana_of(c)) == c,
{
    let u = c as u32;
    vstd::utf8::char_u32_cast(c, u);
    let k = (u + 0x60) as char;
    assert(vstd::utf8::is_scalar((u + 0x60) as u32));
    vstd::utf8::char_u32_cast(k, (u + 0x60) as u32);
}

/// Law: a katakana of the table, turned into hiragana and back, is unchanged.
pub proof fn lemma_katakana_hiragana_roundtrip(c: char)
    requires
        spec_is_table_katakana(c),
    ensures
        spec_is_table_hiragana(spec_hiragana_of(c)),
        spec_katakana_of(spec_hiragana_of(c)) == c,
{
    let u = c as u32;
    vstd::utf8::char_u32_cast(c, u);
    let h = (u - 0x60) as char;
    assert(vstd::utf8::is_scalar((u - 0x60) as u32));
    vstd::utf8::char_u32_cast(h, (u - 0x60) as u32);
}

/// Law: a text without table katakana comes back unchanged from
/// `to_hiragana(to_katakana(..))`.
pub proof fn lemma_to_katakana_then_hiragana(s: Seq<char>)
    requires
        forall|i: int| 0 <= i < s.len() ==> !spec_is_table_katakana(#[trigger] s[i]),
    ensures
        s.map_values(|c: char| spec_katakana_of(c)).map_values(|c: char| spec_hiragana_of(c)) == s,
{
    let k = s.map_values(|c: char| spec_katakana_of(c));
    let h = k.map_values(|c: char| spec_hiragana_of(c));
    assert forall|i: int| 0 <= i < s.len() implies h[i] == s[i] by {
        if spec_is_table_hiragana(s[i]) {
            lemma_hiragana_katakana_roundtrip(s[i]);
        }
    }
    assert(h =~= s);
}

/// Law: the narrow form is the katakana form, character for character.
pub proof fn lemma_halfwidth_is_katakana(s: Seq<char>)
    ensures
        s.map_values(|c: char| spec_narrow_of(spec_katakana_of(c))) == s.map_values(|c: char| spec_katakana_of(c)),
{
    assert(s.map_values(|c: char| spec_narrow_of(spec_katakana_of(c))) =~= s.map_values(|c: char| spec_katakana_of(c)));
}


/// Law: every hiragana letter from `ぁ` (U+3041) to `ゖ` (U+3096), small ones
/// included, becomes the katakana 0x60 code points above it (`ぁ` → `ァ`,
/// `ふ` → `フ`), and every katakana from `ァ` (U+30A1) to `ヶ` (U+30F6) becomes
/// the hiragana 0x60 below it; every other character is left as it is.
pub proof fn lemma_kana_shift(c: char)
    ensures
        0x3041 <= (c as u32) <= 0x3096 ==> (spec_katakana_of(c) as u32) == (c as u32) + 0x60,
        0x30A1 <= (c as u32) <= 0x30F6 ==> (spec_hiragana_of(c) as u32) == (c as u32) - 0x60,
        !(0x3041 <= (c as u32) <= 0x3096) ==> spec_katakana_of(c) == c,
        !(0x30A1 <= (c as u32) <= 0x30F6) ==> spec_hiragana_of(c) == c,
{
    let u = c as u32;
    vstd::utf8::char_u32_cast(c, u);
    if 0x3041 <= u <= 0x3096 {
        let k = (u + 0x60) as char;
        assert(vstd::utf8::is_scalar((u + 0x60) as u32));
        vstd::utf8::char_u32_cast(k, (u + 0x60) as u32);
    }
    if 0x30A1 <= u <= 0x30F6 {
        let h = (u - 0x60) as char;
        assert(vstd::utf8::is_scalar((u - 0x60) as u32));
        vstd::utf8::char_u32_cast(h, (u - 0x60) as u32);
    }
}

/// Law: converting a text to katakana changes each hiragana letter of
/// U+3041..=U+3096 into the letter 0x60 above it and keeps every other
/// character; the text keeps its length.
pub proof fn lemma_to_katakana_shifts(s: Seq<char>, k: Seq<char>)
    requires
        k == s.map_values(|c: char| spec_katakana_of(c)),
    ensures
        k.len() == s.len(),
        forall|i: int| 0 <= i < s.len() && 0x3041 <= (s[i] as u32) <= 0x3096 ==> (#[trigger] k[i] as u32) == (s[i] as u32) + 0x60,
        forall|i: int| 0 <= i < s.len() && !(0x3041 <= (s[i] as u32) <= 0x3096) ==> #[trigger] k[i] == s[i],
{
    assert forall|i: int| 0 <= i < s.len() implies {
        &&& 0x3041 <= (s[i] as u32) <= 0x3096 ==> (#[trigger] k[i] as u32) == (s[i] as u32) + 0x60
        &&& !(0x3041 <= (s[i] as u32) <= 0x3096) ==> k[i] == s[i]
    } by {
        lemma_kana_shift(s[i]);
    }
}

} // verus!
