//! The snapshot codec: the record sequence serialized to a compact binary
//! form and read back, bit for bit. Only the names and records are
//! written; the indices are rebuilt from them on loading, which is what
//! makes the loaded store answer every lookup as the saved one did.
//!
//! The wire form is little-endian throughout: counts and string lengths
//! as eight bytes, each character as its four-byte scalar value, each
//! vocabulary variant as one byte, and each optional field behind a
//! presence byte.

use vstd::prelude::*;
use vstd::bytes::{
    lemma_auto_spec_u32_to_from_le_bytes, lemma_auto_spec_u64_to_from_le_bytes,
    spec_u32_from_le_bytes, spec_u32_to_le_bytes, spec_u64_from_le_bytes, spec_u64_to_le_bytes,
    u32_from_le_bytes, u32_to_le_bytes, u64_from_le_bytes, u64_to_le_bytes,
};
use vstd::slice::slice_subrange;
use vstd::utf8::is_scalar;

use crate::errors::{ErrorView, IngestError};
use crate::record::{char_from_u32, Record, RecordView};
use crate::store::{records_view, spec_store_of, GlyphData, StoreView};
use crate::text::{chars_of, push_char};
use crate::vocab::{Case, Category, Direction, Script, SubCategory};

verus! {

broadcast use vstd::utf8::char_is_scalar, vstd::utf8::char_u32_cast;

/// The snapshot byte of a `Category` variant.
pub open spec fn spec_category_tag(v: Category) -> u8 {
    match v {
        Category::Letter => 0,
        Category::Mark => 1,
        Category::Number => 2,
        Category::Other => 3,
        Category::Punctuation => 4,
        Category::Separator => 5,
        Category::Symbol => 6,
    }
}

/// The `Category` variant of a snapshot byte.
pub open spec fn spec_category_of_tag(t: u8) -> Option<Category> {
    if t == 0 {
        Some(Category::Letter)
    } else if t == 1 {
        Some(Category::Mark)
    } else if t == 2 {
        Some(Category::Number)
    } else if t == 3 {
        Some(Category::Other)
    } else if t == 4 {
        Some(Category::Punctuation)
    } else if t == 5 {
        Some(Category::Separator)
    } else if t == 6 {
        Some(Category::Symbol)
    } else {
        None
    }
}

fn category_tag(v: Category) -> (t: u8)
    ensures
        t == spec_category_tag(v),
{
    match v {
        Category::Letter => 0,
        Category::Mark => 1,
        Category::Number => 2,
        Category::Other => 3,
        Category::Punctuation => 4,
        Category::Separator => 5,
        Category::Symbol => 6,
    }
}

fn category_of_tag(t: u8) -> (r: Option<Category>)
    ensures
        r == spec_category_of_tag(t),
{
    if t == 0 {
        Some(Category::Letter)
    } else if t == 1 {
        Some(Category::Mark)
    } else if t == 2 {
        Some(Category::Number)
    } else if t == 3 {
        Some(Category::Other)
    } else if t == 4 {
        Some(Category::Punctuation)
    } else if t == 5 {
        Some(Category::Separator)
    } else if t == 6 {
        Some(Category::Symbol)
    } else {
        None
    }
}

proof fn lemma_category_tag_rt(v: Category)
    ensures
        spec_category_of_tag(spec_category_tag(v)) == Some(v),
{
}

/// The snapshot byte of a `SubCategory` variant.
pub open spec fn spec_sub_category_tag(v: SubCategory) -> u8 {
    match v {
        SubCategory::Arrow => 0,
        SubCategory::Compatibility => 1,
        SubCategory::Currency => 2,
        SubCategory::Dash => 3,
        SubCategory::DecimalDigit => 4,
        SubCategory::Emoji => 5,
        SubCategory::Enclosing => 6,
        SubCategory::Format => 7,
        SubCategory::Fraction => 8,
        SubCategory::Geometry => 9,
        SubCategory::Halfform => 10,
        SubCategory::Jamo => 11,
        SubCategory::Letter => 12,
        SubCategory::Ligature => 13,
        SubCategory::Math => 14,
        SubCategory::Matra => 15,
        SubCategory::Modifier => 16,
        SubCategory::Nonspacing => 17,
        SubCategory::Number => 18,
        SubCategory::Parenthesis => 19,
        SubCategory::Quote => 20,
        SubCategory::Radical => 21,
        SubCategory::Small => 22,
        SubCategory::Space => 23,
        SubCategory::Spacing => 24,
        SubCategory::SpacingCombining => 25,
        SubCategory::Superscript => 26,
        SubCategory::Syllable => 27,
    }
}

/// The `SubCategory` variant of a snapshot byte.
pub open spec fn spec_sub_category_of_tag(t: u8) -> Option<SubCategory> {
    if t == 0 {
        Some(SubCategory::Arrow)
    } else if t == 1 {
        Some(SubCategory::Compatibility)
    } else if t == 2 {
        Some(SubCategory::Currency)
    } else if t == 3 {
        Some(SubCategory::Dash)
    } else if t == 4 {
        Some(SubCategory::DecimalDigit)
    } else if t == 5 {
        Some(SubCategory::Emoji)
    } else if t == 6 {
        Some(SubCategory::Enclosing)
    } else if t == 7 {
        Some(SubCategory::Format)
    } else if t == 8 {
        Some(SubCategory::Fraction)
    } else if t == 9 {
        Some(SubCategory::Geometry)
    } else if t == 10 {
        Some(SubCategory::Halfform)
    } else if t == 11 {
        Some(SubCategory::Jamo)
    } else if t == 12 {
        Some(SubCategory::Letter)
    } else if t == 13 {
        Some(SubCategory::Ligature)
    } else if t == 14 {
        Some(SubCategory::Math)
    } else if t == 15 {
        Some(SubCategory::Matra)
    } else if t == 16 {
        Some(SubCategory::Modifier)
    } else if t == 17 {
        Some(SubCategory::Nonspacing)
    } else if t == 18 {
        Some(SubCategory::Number)
    } else if t == 19 {
        Some(SubCategory::Parenthesis)
    } else if t == 20 {
        Some(SubCategory::Quote)
    } else if t == 21 {
        Some(SubCategory::Radical)
    } else if t == 22 {
        Some(SubCategory::Small)
    } else if t == 23 {
        Some(SubCategory::Space)
    } else if t == 24 {
        Some(SubCategory::Spacing)
    } else if t == 25 {
        Some(SubCategory::SpacingCombining)
    } else if t == 26 {
        Some(SubCategory::Superscript)
    } else if t == 27 {
        Some(SubCategory::Syllable)
    } else {
        None
    }
}

fn sub_category_tag(v: SubCategory) -> (t: u8)
    ensures
        t == spec_sub_category_tag(v),
{
    match v {
        SubCategory::Arrow => 0,
        SubCategory::Compatibility => 1,
        SubCategory::Currency => 2,
        SubCategory::Dash => 3,
        SubCategory::DecimalDigit => 4,
        SubCategory::Emoji => 5,
        SubCategory::Enclosing => 6,
        SubCategory::Format => 7,
        SubCategory::Fraction => 8,
        SubCategory::Geometry => 9,
        SubCategory::Halfform => 10,
        SubCategory::Jamo => 11,
        SubCategory::Letter => 12,
        SubCategory::Ligature => 13,
        SubCategory::Math => 14,
        SubCategory::Matra => 15,
        SubCategory::Modifier => 16,
        SubCategory::Nonspacing => 17,
        SubCategory::Number => 18,
        SubCategory::Parenthesis => 19,
        SubCategory::Quote => 20,
        SubCategory::Radical => 21,
        SubCategory::Small => 22,
        SubCategory::Space => 23,
        SubCategory::Spacing => 24,
        SubCategory::SpacingCombining => 25,
        SubCategory::Superscript => 26,
        SubCategory::Syllable => 27,
    }
}

fn sub_category_of_tag(t: u8) -> (r: Option<SubCategory>)
    ensures
        r == spec_sub_category_of_tag(t),
{
    if t == 0 {
        Some(SubCategory::Arrow)
    } else if t == 1 {
        Some(SubCategory::Compatibility)
    } else if t == 2 {
        Some(SubCategory::Currency)
    } else if t == 3 {
        Some(SubCategory::Dash)
    } else if t == 4 {
        Some(SubCategory::DecimalDigit)
    } else if t == 5 {
        Some(SubCategory::Emoji)
    } else if t == 6 {
        Some(SubCategory::Enclosing)
    } else if t == 7 {
        Some(SubCategory::Format)
    } else if t == 8 {
        Some(SubCategory::Fraction)
    } else if t == 9 {
        Some(SubCategory::Geometry)
    } else if t == 10 {
        Some(SubCategory::Halfform)
    } else if t == 11 {
        Some(SubCategory::Jamo)
    } else if t == 12 {
        Some(SubCategory::Letter)
    } else if t == 13 {
        Some(SubCategory::Ligature)
    } else if t == 14 {
        Some(SubCategory::Math)
    } else if t == 15 {
        Some(SubCategory::Matra)
    } else if t == 16 {
        Some(SubCategory::Modifier)
    } else if t == 17 {
        Some(SubCategory::Nonspacing)
    } else if t == 18 {
        Some(SubCategory::Number)
    } else if t == 19 {
        Some(SubCategory::Parenthesis)
    } else if t == 20 {
        Some(SubCategory::Quote)
    } else if t == 21 {
        Some(SubCategory::Radical)
    } else if t == 22 {
        Some(SubCategory::Small)
    } else if t == 23 {
        Some(SubCategory::Space)
    } else if t == 24 {
        Some(SubCategory::Spacing)
    } else if t == 25 {
        Some(SubCategory::SpacingCombining)
    } else if t == 26 {
        Some(SubCategory::Superscript)
    } else if t == 27 {
        Some(SubCategory::Syllable)
    } else {
        None
    }
}

proof fn lemma_sub_category_tag_rt(v: SubCategory)
    ensures
        spec_sub_category_of_tag(spec_sub_category_tag(v)) == Some(v),
{
}

/// The snapshot byte of a `Case` variant.
pub open spec fn spec_case_axis_tag(v: Case) -> u8 {
    match v {
        Case::Lower => 0,
        Case::Minor => 1,
        Case::SmallCaps => 2,
        Case::Upper => 3,
    }
}

/// The `Case` variant of a snapshot byte.
pub open spec fn spec_case_axis_of_tag(t: u8) -> Option<Case> {
    if t == 0 {
        Some(Case::Lower)
    } else if t == 1 {
        Some(Case::Minor)
    } else if t == 2 {
        Some(Case::SmallCaps)
    } else if t == 3 {
        Some(Case::Upper)
    } else {
        None
    }
}

fn case_axis_tag(v: Case) -> (t: u8)
    ensures
        t == spec_case_axis_tag(v),
{
    match v {
        Case::Lower => 0,
        Case::Minor => 1,
        Case::SmallCaps => 2,
        Case::Upper => 3,
    }
}

fn case_axis_of_tag(t: u8) -> (r: Option<Case>)
    ensures
        r == spec_case_axis_of_tag(t),
{
    if t == 0 {
        Some(Case::Lower)
    } else if t == 1 {
        Some(Case::Minor)
    } else if t == 2 {
        Some(Case::SmallCaps)
    } else if t == 3 {
        Some(Case::Upper)
    } else {
        None
    }
}

proof fn lemma_case_axis_tag_rt(v: Case)
    ensures
        spec_case_axis_of_tag(spec_case_axis_tag(v)) == Some(v),
{
}

/// The snapshot byte of a `Script` variant.
pub open spec fn spec_script_tag(v: Script) -> u8 {
    match v {
        Script::Adlam => 0,
        Script::Alchemical => 1,
        Script::Arabic => 2,
        Script::Armenian => 3,
        Script::Avestan => 4,
        Script::Balinese => 5,
        Script::Bamum => 6,
        Script::Batak => 7,
        Script::Bengali => 8,
        Script::BlackLetter => 9,
        Script::Bopomofo => 10,
        Script::Braille => 11,
        Script::Buginese => 12,
        Script::Canadian => 13,
        Script::Chakma => 14,
        Script::Cham => 15,
        Script::Cherokee => 16,
        Script::Chorasmian => 17,
        Script::Cyrillic => 18,
        Script::Dentistry => 19,
        Script::Deseret => 20,
        Script::Devanagari => 21,
        Script::Divesakuru => 22,
        Script::Elbasan => 23,
        Script::Elymaic => 24,
        Script::Ethiopic => 25,
        Script::Georgian => 26,
        Script::Glagolitic => 27,
        Script::Gothic => 28,
        Script::Greek => 29,
        Script::Gujarati => 30,
        Script::Gurmukhi => 31,
        Script::Han => 32,
        Script::Hangul => 33,
        Script::Hebrew => 34,
        Script::Javanese => 35,
        Script::Kana => 36,
        Script::Kannada => 37,
        Script::Kayahli => 38,
        Script::Khmer => 39,
        Script::Khojki => 40,
        Script::Lao => 41,
        Script::Latin => 42,
        Script::Lepcha => 43,
        Script::Lue => 44,
        Script::Mahjong => 45,
        Script::Malayalam => 46,
        Script::Mandaic => 47,
        Script::Math => 48,
        Script::Mongolian => 49,
        Script::Musical => 50,
        Script::Myanmar => 51,
        Script::Nko => 52,
        Script::NyiakengPuachueHmong => 53,
        Script::Oriya => 54,
        Script::Osage => 55,
        Script::Osmanya => 56,
        Script::PahawhHmong => 57,
        Script::PhaistosDisc => 58,
        Script::Rovas => 59,
        Script::Runic => 60,
        Script::Samaritan => 61,
        Script::Shavian => 62,
        Script::Sinhala => 63,
        Script::Syriac => 64,
        Script::Tamil => 65,
        Script::Telugu => 66,
        Script::Thaana => 67,
        Script::Thai => 68,
        Script::Tham => 69,
        Script::Tibet => 70,
        Script::Tifinagh => 71,
        Script::Yi => 72,
    }
}

/// The `Script` variant of a snapshot byte.
pub open spec fn spec_script_of_tag(t: u8) -> Option<Script> {
    if t == 0 {
        Some(Script::Adlam)
    } else if t == 1 {
        Some(Script::Alchemical)
    } else if t == 2 {
        Some(Script::Arabic)
    } else if t == 3 {
        Some(Script::Armenian)
    } else if t == 4 {
        Some(Script::Avestan)
    } else if t == 5 {
        Some(Script::Balinese)
    } else if t == 6 {
        Some(Script::Bamum)
    } else if t == 7 {
        Some(Script::Batak)
    } else if t == 8 {
        Some(Script::Bengali)
    } else if t == 9 {
        Some(Script::BlackLetter)
    } else if t == 10 {
        Some(Script::Bopomofo)
    } else if t == 11 {
        Some(Script::Braille)
    } else if t == 12 {
        Some(Script::Buginese)
    } else if t == 13 {
        Some(Script::Canadian)
    } else if t == 14 {
        Some(Script::Chakma)
    } else if t == 15 {
        Some(Script::Cham)
    } else if t == 16 {
        Some(Script::Cherokee)
    } else if t == 17 {
        Some(Script::Chorasmian)
    } else if t == 18 {
        Some(Script::Cyrillic)
    } else if t == 19 {
        Some(Script::Dentistry)
    } else if t == 20 {
        Some(Script::Deseret)
    } else if t == 21 {
        Some(Script::Devanagari)
    } else if t == 22 {
        Some(Script::Divesakuru)
    } else if t == 23 {
        Some(Script::Elbasan)
    } else if t == 24 {
        Some(Script::Elymaic)
    } else if t == 25 {
        Some(Script::Ethiopic)
    } else if t == 26 {
        Some(Script::Georgian)
    } else if t == 27 {
        Some(Script::Glagolitic)
    } else if t == 28 {
        Some(Script::Gothic)
    } else if t == 29 {
        Some(Script::Greek)
    } else if t == 30 {
        Some(Script::Gujarati)
    } else if t == 31 {
        Some(Script::Gurmukhi)
    } else if t == 32 {
        Some(Script::Han)
    } else if t == 33 {
        Some(Script::Hangul)
    } else if t == 34 {
        Some(Script::Hebrew)
    } else if t == 35 {
        Some(Script::Javanese)
    } else if t == 36 {
        Some(Script::Kana)
    } else if t == 37 {
        Some(Script::Kannada)
    } else if t == 38 {
        Some(Script::Kayahli)
    } else if t == 39 {
        Some(Script::Khmer)
    } else if t == 40 {
        Some(Script::Khojki)
    } else if t == 41 {
        Some(Script::Lao)
    } else if t == 42 {
        Some(Script::Latin)
    } else if t == 43 {
        Some(Script::Lepcha)
    } else if t == 44 {
        Some(Script::Lue)
    } else if t == 45 {
        Some(Script::Mahjong)
    } else if t == 46 {
        Some(Script::Malayalam)
    } else if t == 47 {
        Some(Script::Mandaic)
    } else if t == 48 {
        Some(Script::Math)
    } else if t == 49 {
        Some(Script::Mongolian)
    } else if t == 50 {
        Some(Script::Musical)
    } else if t == 51 {
        Some(Script::Myanmar)
    } else if t == 52 {
        Some(Script::Nko)
    } else if t == 53 {
        Some(Script::NyiakengPuachueHmong)
    } else if t == 54 {
        Some(Script::Oriya)
    } else if t == 55 {
        Some(Script::Osage)
    } else if t == 56 {
        Some(Script::Osmanya)
    } else if t == 57 {
        Some(Script::PahawhHmong)
    } else if t == 58 {
        Some(Script::PhaistosDisc)
    } else if t == 59 {
        Some(Script::Rovas)
    } else if t == 60 {
        Some(Script::Runic)
    } else if t == 61 {
        Some(Script::Samaritan)
    } else if t == 62 {
        Some(Script::Shavian)
    } else if t == 63 {
        Some(Script::Sinhala)
    } else if t == 64 {
        Some(Script::Syriac)
    } else if t == 65 {
        Some(Script::Tamil)
    } else if t == 66 {
        Some(Script::Telugu)
    } else if t == 67 {
        Some(Script::Thaana)
    } else if t == 68 {
        Some(Script::Thai)
    } else if t == 69 {
        Some(Script::Tham)
    } else if t == 70 {
        Some(Script::Tibet)
    } else if t == 71 {
        Some(Script::Tifinagh)
    } else if t == 72 {
        Some(Script::Yi)
    } else {
        None
    }
}

fn script_tag(v: Script) -> (t: u8)
    ensures
        t == spec_script_tag(v),
{
    match v {
        Script::Adlam => 0,
        Script::Alchemical => 1,
        Script::Arabic => 2,
        Script::Armenian => 3,
        Script::Avestan => 4,
        Script::Balinese => 5,
        Script::Bamum => 6,
        Script::Batak => 7,
        Script::Bengali => 8,
        Script::BlackLetter => 9,
        Script::Bopomofo => 10,
        Script::Braille => 11,
        Script::Buginese => 12,
        Script::Canadian => 13,
        Script::Chakma => 14,
        Script::Cham => 15,
        Script::Cherokee => 16,
        Script::Chorasmian => 17,
        Script::Cyrillic => 18,
        Script::Dentistry => 19,
        Script::Deseret => 20,
        Script::Devanagari => 21,
        Script::Divesakuru => 22,
        Script::Elbasan => 23,
        Script::Elymaic => 24,
        Script::Ethiopic => 25,
        Script::Georgian => 26,
        Script::Glagolitic => 27,
        Script::Gothic => 28,
        Script::Greek => 29,
        Script::Gujarati => 30,
        Script::Gurmukhi => 31,
        Script::Han => 32,
        Script::Hangul => 33,
        Script::Hebrew => 34,
        Script::Javanese => 35,
        Script::Kana => 36,
        Script::Kannada => 37,
        Script::Kayahli => 38,
        Script::Khmer => 39,
        Script::Khojki => 40,
        Script::Lao => 41,
        Script::Latin => 42,
        Script::Lepcha => 43,
        Script::Lue => 44,
        Script::Mahjong => 45,
        Script::Malayalam => 46,
        Script::Mandaic => 47,
        Script::Math => 48,
        Script::Mongolian => 49,
        Script::Musical => 50,
        Script::Myanmar => 51,
        Script::Nko => 52,
        Script::NyiakengPuachueHmong => 53,
        Script::Oriya => 54,
        Script::Osage => 55,
        Script::Osmanya => 56,
        Script::PahawhHmong => 57,
        Script::PhaistosDisc => 58,
        Script::Rovas => 59,
        Script::Runic => 60,
        Script::Samaritan => 61,
        Script::Shavian => 62,
        Script::Sinhala => 63,
        Script::Syriac => 64,
        Script::Tamil => 65,
        Script::Telugu => 66,
        Script::Thaana => 67,
        Script::Thai => 68,
        Script::Tham => 69,
        Script::Tibet => 70,
        Script::Tifinagh => 71,
        Script::Yi => 72,
    }
}

fn script_of_tag(t: u8) -> (r: Option<Script>)
    ensures
        r == spec_script_of_tag(t),
{
    if t == 0 {
        Some(Script::Adlam)
    } else if t == 1 {
        Some(Script::Alchemical)
    } else if t == 2 {
        Some(Script::Arabic)
    } else if t == 3 {
        Some(Script::Armenian)
    } else if t == 4 {
        Some(Script::Avestan)
    } else if t == 5 {
        Some(Script::Balinese)
    } else if t == 6 {
        Some(Script::Bamum)
    } else if t == 7 {
        Some(Script::Batak)
    } else if t == 8 {
        Some(Script::Bengali)
    } else if t == 9 {
        Some(Script::BlackLetter)
    } else if t == 10 {
        Some(Script::Bopomofo)
    } else if t == 11 {
        Some(Script::Braille)
    } else if t == 12 {
        Some(Script::Buginese)
    } else if t == 13 {
        Some(Script::Canadian)
    } else if t == 14 {
        Some(Script::Chakma)
    } else if t == 15 {
        Some(Script::Cham)
    } else if t == 16 {
        Some(Script::Cherokee)
    } else if t == 17 {
        Some(Script::Chorasmian)
    } else if t == 18 {
        Some(Script::Cyrillic)
    } else if t == 19 {
        Some(Script::Dentistry)
    } else if t == 20 {
        Some(Script::Deseret)
    } else if t == 21 {
        Some(Script::Devanagari)
    } else if t == 22 {
        Some(Script::Divesakuru)
    } else if t == 23 {
        Some(Script::Elbasan)
    } else if t == 24 {
        Some(Script::Elymaic)
    } else if t == 25 {
        Some(Script::Ethiopic)
    } else if t == 26 {
        Some(Script::Georgian)
    } else if t == 27 {
        Some(Script::Glagolitic)
    } else if t == 28 {
        Some(Script::Gothic)
    } else if t == 29 {
        Some(Script::Greek)
    } else if t == 30 {
        Some(Script::Gujarati)
    } else if t == 31 {
        Some(Script::Gurmukhi)
    } else if t == 32 {
        Some(Script::Han)
    } else if t == 33 {
        Some(Script::Hangul)
    } else if t == 34 {
        Some(Script::Hebrew)
    } else if t == 35 {
        Some(Script::Javanese)
    } else if t == 36 {
        Some(Script::Kana)
    } else if t == 37 {
        Some(Script::Kannada)
    } else if t == 38 {
        Some(Script::Kayahli)
    } else if t == 39 {
        Some(Script::Khmer)
    } else if t == 40 {
        Some(Script::Khojki)
    } else if t == 41 {
        Some(Script::Lao)
    } else if t == 42 {
        Some(Script::Latin)
    } else if t == 43 {
        Some(Script::Lepcha)
    } else if t == 44 {
        Some(Script::Lue)
    } else if t == 45 {
        Some(Script::Mahjong)
    } else if t == 46 {
        Some(Script::Malayalam)
    } else if t == 47 {
        Some(Script::Mandaic)
    } else if t == 48 {
        Some(Script::Math)
    } else if t == 49 {
        Some(Script::Mongolian)
    } else if t == 50 {
        Some(Script::Musical)
    } else if t == 51 {
        Some(Script::Myanmar)
    } else if t == 52 {
        Some(Script::Nko)
    } else if t == 53 {
        Some(Script::NyiakengPuachueHmong)
    } else if t == 54 {
        Some(Script::Oriya)
    } else if t == 55 {
        Some(Script::Osage)
    } else if t == 56 {
        Some(Script::Osmanya)
    } else if t == 57 {
        Some(Script::PahawhHmong)
    } else if t == 58 {
        Some(Script::PhaistosDisc)
    } else if t == 59 {
        Some(Script::Rovas)
    } else if t == 60 {
        Some(Script::Runic)
    } else if t == 61 {
        Some(Script::Samaritan)
    } else if t == 62 {
        Some(Script::Shavian)
    } else if t == 63 {
        Some(Script::Sinhala)
    } else if t == 64 {
        Some(Script::Syriac)
    } else if t == 65 {
        Some(Script::Tamil)
    } else if t == 66 {
        Some(Script::Telugu)
    } else if t == 67 {
        Some(Script::Thaana)
    } else if t == 68 {
        Some(Script::Thai)
    } else if t == 69 {
        Some(Script::Tham)
    } else if t == 70 {
        Some(Script::Tibet)
    } else if t == 71 {
        Some(Script::Tifinagh)
    } else if t == 72 {
        Some(Script::Yi)
    } else {
        None
    }
}

proof fn lemma_script_tag_rt(v: Script)
    ensures
        spec_script_of_tag(spec_script_tag(v)) == Some(v),
{
}

/// The snapshot byte of a `Direction` variant.
pub open spec fn spec_direction_tag(v: Direction) -> u8 {
    match v {
        Direction::LeftToRight => 0,
        Direction::RightToLeft => 1,
    }
}

/// The `Direction` variant of a snapshot byte.
pub open spec fn spec_direction_of_tag(t: u8) -> Option<Direction> {
    if t == 0 {
        Some(Direction::LeftToRight)
    } else if t == 1 {
        Some(Direction::RightToLeft)
    } else {
        None
    }
}

fn direction_tag(v: Direction) -> (t: u8)
    ensures
        t == spec_direction_tag(v),
{
    match v {
        Direction::LeftToRight => 0,
        Direction::RightToLeft => 1,
    }
}

fn direction_of_tag(t: u8) -> (r: Option<Direction>)
    ensures
        r == spec_direction_of_tag(t),
{
    if t == 0 {
        Some(Direction::LeftToRight)
    } else if t == 1 {
        Some(Direction::RightToLeft)
    } else {
        None
    }
}

proof fn lemma_direction_tag_rt(v: Direction)
    ensures
        spec_direction_of_tag(spec_direction_tag(v)) == Some(v),
{
}

// ---------------------------------------------------------------------------
// The encoded form, as sequences of bytes.
// ---------------------------------------------------------------------------

/// One character: its scalar value, four bytes.
pub open spec fn spec_encode_char(c: char) -> Seq<u8> {
    spec_u32_to_le_bytes(c as u32)
}

/// The characters of a string, in order.
pub open spec fn spec_encode_chars(s: Seq<char>) -> Seq<u8>
    decreases s.len(),
{
    if s.len() == 0 {
        Seq::empty()
    } else {
        spec_encode_char(s[0]) + spec_encode_chars(s.drop_first())
    }
}

/// A string: its character count, then its characters.
pub open spec fn spec_encode_str(s: Seq<char>) -> Seq<u8> {
    spec_u64_to_le_bytes(s.len() as u64) + spec_encode_chars(s)
}

/// An optional string behind a presence byte.
pub open spec fn spec_encode_opt_str(s: Option<Seq<char>>) -> Seq<u8> {
    match s {
        None => seq![0u8],
        Some(v) => seq![1u8] + spec_encode_str(v),
    }
}

/// An optional codepoint behind a presence byte.
pub open spec fn spec_encode_opt_char(c: Option<char>) -> Seq<u8> {
    match c {
        None => seq![0u8],
        Some(v) => seq![1u8] + spec_encode_char(v),
    }
}

/// A sequence of strings, in order.
pub open spec fn spec_encode_strs(xs: Seq<Seq<char>>) -> Seq<u8>
    decreases xs.len(),
{
    if xs.len() == 0 {
        Seq::empty()
    } else {
        spec_encode_str(xs[0]) + spec_encode_strs(xs.drop_first())
    }
}

/// A counted sequence of strings.
pub open spec fn spec_encode_alt_names(xs: Seq<Seq<char>>) -> Seq<u8> {
    spec_u64_to_le_bytes(xs.len() as u64) + spec_encode_strs(xs)
}

/// An optional sub-category behind a presence byte.
pub open spec fn spec_encode_opt_sub(v: Option<SubCategory>) -> Seq<u8> {
    match v {
        None => seq![0u8],
        Some(x) => seq![1u8, spec_sub_category_tag(x)],
    }
}

/// An optional case behind a presence byte.
pub open spec fn spec_encode_opt_case(v: Option<Case>) -> Seq<u8> {
    match v {
        None => seq![0u8],
        Some(x) => seq![1u8, spec_case_axis_tag(x)],
    }
}

/// An optional script behind a presence byte.
pub open spec fn spec_encode_opt_script(v: Option<Script>) -> Seq<u8> {
    match v {
        None => seq![0u8],
        Some(x) => seq![1u8, spec_script_tag(x)],
    }
}

/// An optional direction behind a presence byte.
pub open spec fn spec_encode_opt_direction(v: Option<Direction>) -> Seq<u8> {
    match v {
        None => seq![0u8],
        Some(x) => seq![1u8, spec_direction_tag(x)],
    }
}

/// One snapshot entry: a record and its primary name, field by field.
pub open spec fn spec_encode_entry(name: Seq<char>, r: RecordView) -> Seq<u8> {
    spec_encode_str(name) + (spec_encode_opt_char(r.unicode) + (seq![
        spec_category_tag(r.category),
    ] + (spec_encode_opt_sub(r.sub_category) + (spec_encode_opt_case(r.case) + (
    spec_encode_opt_script(r.script) + (spec_encode_opt_direction(r.direction) + (
    spec_encode_opt_str(r.description) + (spec_encode_opt_str(r.production_name)
        + spec_encode_alt_names(r.alternative_names)))))))))
}

/// The entries, in order.
pub open spec fn spec_encode_entries(names: Seq<Seq<char>>, records: Seq<RecordView>) -> Seq<u8>
    decreases records.len(),
{
    if records.len() == 0 {
        Seq::empty()
    } else {
        spec_encode_entry(names[0], records[0]) + spec_encode_entries(
            names.drop_first(),
            records.drop_first(),
        )
    }
}

/// A whole snapshot: the record count, then the entries.
pub open spec fn spec_encode_snapshot(names: Seq<Seq<char>>, records: Seq<RecordView>) -> Seq<
    u8,
> {
    spec_u64_to_le_bytes(records.len() as u64) + spec_encode_entries(names, records)
}

// ---------------------------------------------------------------------------
// Decoding, over the remaining bytes.
// ---------------------------------------------------------------------------

/// Eight bytes read as a count or length.
pub open spec fn spec_decode_u64(b: Seq<u8>) -> Option<(u64, Seq<u8>)> {
    if b.len() >= 8 {
        Some((spec_u64_from_le_bytes(b.take(8)), b.skip(8)))
    } else {
        None
    }
}

/// One byte.
pub open spec fn spec_decode_u8(b: Seq<u8>) -> Option<(u8, Seq<u8>)> {
    if b.len() >= 1 {
        Some((b[0], b.drop_first()))
    } else {
        None
    }
}

/// One character; four bytes that do not name a scalar value are refused.
pub open spec fn spec_decode_char(b: Seq<u8>) -> Option<(char, Seq<u8>)> {
    if b.len() >= 4 {
        let v = spec_u32_from_le_bytes(b.take(4));
        if is_scalar(v) {
            Some((v as char, b.skip(4)))
        } else {
            None
        }
    } else {
        None
    }
}

/// Exactly `n` characters.
pub open spec fn spec_decode_chars(n: nat, b: Seq<u8>) -> Option<(Seq<char>, Seq<u8>)>
    decreases n,
{
    if n == 0 {
        Some((Seq::empty(), b))
    } else {
        match spec_decode_char(b) {
            Some((c, r)) => match spec_decode_chars((n - 1) as nat, r) {
                Some((s, r2)) => Some((seq![c] + s, r2)),
                None => None,
            },
            None => None,
        }
    }
}

/// A length-prefixed string.
pub open spec fn spec_decode_str(b: Seq<u8>) -> Option<(Seq<char>, Seq<u8>)> {
    match spec_decode_u64(b) {
        Some((n, r)) => spec_decode_chars(n as nat, r),
        None => None,
    }
}

/// An optional string behind a presence byte.
pub open spec fn spec_decode_opt_str(b: Seq<u8>) -> Option<(Option<Seq<char>>, Seq<u8>)> {
    match spec_decode_u8(b) {
        Some((t, r)) => if t == 0 {
            Some((None, r))
        } else if t == 1 {
            match spec_decode_str(r) {
                Some((s, r2)) => Some((Some(s), r2)),
                None => None,
            }
        } else {
            None
        },
        None => None,
    }
}

/// An optional codepoint behind a presence byte.
pub open spec fn spec_decode_opt_char(b: Seq<u8>) -> Option<(Option<char>, Seq<u8>)> {
    match spec_decode_u8(b) {
        Some((t, r)) => if t == 0 {
            Some((None, r))
        } else if t == 1 {
            match spec_decode_char(r) {
                Some((c, r2)) => Some((Some(c), r2)),
                None => None,
            }
        } else {
            None
        },
        None => None,
    }
}

/// Exactly `n` length-prefixed strings.
pub open spec fn spec_decode_strs(n: nat, b: Seq<u8>) -> Option<(Seq<Seq<char>>, Seq<u8>)>
    decreases n,
{
    if n == 0 {
        Some((Seq::empty(), b))
    } else {
        match spec_decode_str(b) {
            Some((s, r)) => match spec_decode_strs((n - 1) as nat, r) {
                Some((xs, r2)) => Some((seq![s] + xs, r2)),
                None => None,
            },
            None => None,
        }
    }
}

/// A counted sequence of strings.
pub open spec fn spec_decode_alt_names(b: Seq<u8>) -> Option<(Seq<Seq<char>>, Seq<u8>)> {
    match spec_decode_u64(b) {
        Some((n, r)) => spec_decode_strs(n as nat, r),
        None => None,
    }
}

/// A category byte.
pub open spec fn spec_decode_category(b: Seq<u8>) -> Option<(Category, Seq<u8>)> {
    match spec_decode_u8(b) {
        Some((t, r)) => match spec_category_of_tag(t) {
            Some(v) => Some((v, r)),
            None => None,
        },
        None => None,
    }
}

/// An optional sub-category behind a presence byte.
pub open spec fn spec_decode_opt_sub(b: Seq<u8>) -> Option<(Option<SubCategory>, Seq<u8>)> {
    match spec_decode_u8(b) {
        Some((t, r)) => if t == 0 {
            Some((None, r))
        } else if t == 1 {
            match spec_decode_u8(r) {
                Some((t2, r2)) => match spec_sub_category_of_tag(t2) {
                    Some(v) => Some((Some(v), r2)),
                    None => None,
                },
                None => None,
            }
        } else {
            None
        },
        None => None,
    }
}

/// An optional case behind a presence byte.
pub open spec fn spec_decode_opt_case(b: Seq<u8>) -> Option<(Option<Case>, Seq<u8>)> {
    match spec_decode_u8(b) {
        Some((t, r)) => if t == 0 {
            Some((None, r))
        } else if t == 1 {
            match spec_decode_u8(r) {
                Some((t2, r2)) => match spec_case_axis_of_tag(t2) {
                    Some(v) => Some((Some(v), r2)),
                    None => None,
                },
                None => None,
            }
        } else {
            None
        },
        None => None,
    }
}

/// An optional script behind a presence byte.
pub open spec fn spec_decode_opt_script(b: Seq<u8>) -> Option<(Option<Script>, Seq<u8>)> {
    match spec_decode_u8(b) {
        Some((t, r)) => if t == 0 {
            Some((None, r))
        } else if t == 1 {
            match spec_decode_u8(r) {
                Some((t2, r2)) => match spec_script_of_tag(t2) {
                    Some(v) => Some((Some(v), r2)),
                    None => None,
                },
                None => None,
            }
        } else {
            None
        },
        None => None,
    }
}

/// An optional direction behind a presence byte.
pub open spec fn spec_decode_opt_direction(b: Seq<u8>) -> Option<(Option<Direction>, Seq<u8>)> {
    match spec_decode_u8(b) {
        Some((t, r)) => if t == 0 {
            Some((None, r))
        } else if t == 1 {
            match spec_decode_u8(r) {
                Some((t2, r2)) => match spec_direction_of_tag(t2) {
                    Some(v) => Some((Some(v), r2)),
                    None => None,
                },
                None => None,
            }
        } else {
            None
        },
        None => None,
    }
}

/// One snapshot entry, field by field.
pub open spec fn spec_decode_entry(b: Seq<u8>) -> Option<((Seq<char>, RecordView), Seq<u8>)> {
    match spec_decode_str(b) {
        None => None,
        Some((name, b1)) => match spec_decode_opt_char(b1) {
            None => None,
            Some((unicode, b2)) => match spec_decode_category(b2) {
                None => None,
                Some((category, b3)) => match spec_decode_opt_sub(b3) {
                    None => None,
                    Some((sub_category, b4)) => match spec_decode_opt_case(b4) {
                        None => None,
                        Some((case, b5)) => match spec_decode_opt_script(b5) {
                            None => None,
                            Some((script, b6)) => match spec_decode_opt_direction(b6) {
                                None => None,
                                Some((direction, b7)) => match spec_decode_opt_str(b7) {
                                    None => None,
                                    Some((description, b8)) => match spec_decode_opt_str(b8) {
                                        None => None,
                                        Some((production_name, b9)) => match spec_decode_alt_names(
                                            b9,
                                        ) {
                                            None => None,
                                            Some((alternative_names, b10)) => Some(
                                                (
                                                    (
                                                        name,
                                                        RecordView {
                                                            unicode,
                                                            category,
                                                            sub_category,
                                                            case,
                                                            script,
                                                            direction,
                                                            description,
                                                            production_name,
                                                            alternative_names,
                                                        },
                                                    ),
                                                    b10,
                                                ),
                                            ),
                                        },
                                    },
                                },
                            },
                        },
                    },
                },
            },
        },
    }
}

/// Exactly `n` entries.
pub open spec fn spec_decode_entries(n: nat, b: Seq<u8>) -> Option<
    ((Seq<Seq<char>>, Seq<RecordView>), Seq<u8>),
>
    decreases n,
{
    if n == 0 {
        Some(((Seq::empty(), Seq::empty()), b))
    } else {
        match spec_decode_entry(b) {
            Some(((name, rec), r)) => match spec_decode_entries((n - 1) as nat, r) {
                Some(((names, recs), r2)) => Some(
                    ((seq![name] + names, seq![rec] + recs), r2),
                ),
                None => None,
            },
            None => None,
        }
    }
}

/// A whole snapshot; trailing bytes are refused.
pub open spec fn spec_decode_snapshot(b: Seq<u8>) -> Option<(Seq<Seq<char>>, Seq<RecordView>)> {
    match spec_decode_u64(b) {
        Some((n, r)) => match spec_decode_entries(n as nat, r) {
            Some((pair, rest)) => if rest.len() == 0 {
                Some(pair)
            } else {
                None
            },
            None => None,
        },
        None => None,
    }
}

// ---------------------------------------------------------------------------
// The round trip: decoding what was encoded yields the value back and
// leaves exactly the trailing bytes.
// ---------------------------------------------------------------------------

/// Whether a string fits the length prefix.
pub open spec fn fits_str(s: Seq<char>) -> bool {
    s.len() <= u64::MAX
}

/// Whether a record's variable-length fields fit their prefixes.
pub open spec fn fits_record(r: RecordView) -> bool {
    &&& match r.description {
        Some(d) => fits_str(d),
        None => true,
    }
    &&& match r.production_name {
        Some(p) => fits_str(p),
        None => true,
    }
    &&& r.alternative_names.len() <= u64::MAX
    &&& forall|i: int| 0 <= i < r.alternative_names.len() ==> fits_str(#[trigger] r.alternative_names[i])
}

/// Whether a whole snapshot fits its prefixes.
pub open spec fn fits_snapshot(names: Seq<Seq<char>>, records: Seq<RecordView>) -> bool {
    &&& names.len() == records.len()
    &&& records.len() <= u64::MAX
    &&& forall|i: int| 0 <= i < names.len() ==> fits_str(#[trigger] names[i])
    &&& forall|i: int| 0 <= i < records.len() ==> fits_record(#[trigger] records[i])
}

proof fn lemma_rt_u64(x: u64, rest: Seq<u8>)
    ensures
        spec_decode_u64(spec_u64_to_le_bytes(x) + rest) == Some((x, rest)),
{
    lemma_auto_spec_u64_to_from_le_bytes();
    assert((spec_u64_to_le_bytes(x) + rest).take(8) =~= spec_u64_to_le_bytes(x));
    assert((spec_u64_to_le_bytes(x) + rest).skip(8) =~= rest);
}

proof fn lemma_rt_u8(t: u8, rest: Seq<u8>)
    ensures
        spec_decode_u8(seq![t] + rest) == Some((t, rest)),
{
    assert((seq![t] + rest).drop_first() =~= rest);
}

proof fn lemma_rt_char(c: char, rest: Seq<u8>)
    ensures
        spec_decode_char(spec_encode_char(c) + rest) == Some((c, rest)),
{
    lemma_auto_spec_u32_to_from_le_bytes();
    assert((spec_encode_char(c) + rest).take(4) =~= spec_encode_char(c));
    assert((spec_encode_char(c) + rest).skip(4) =~= rest);
    assert(is_scalar(c as u32));
    vstd::utf8::char_u32_cast(c, c as u32);
}

proof fn lemma_rt_chars(s: Seq<char>, rest: Seq<u8>)
    ensures
        spec_decode_chars(s.len(), spec_encode_chars(s) + rest) == Some((s, rest)),
    decreases s.len(),
{
    if s.len() == 0 {
        assert(spec_encode_chars(s) + rest =~= rest);
        assert(Seq::<char>::empty() =~= s);
    } else {
        let tail = s.drop_first();
        lemma_rt_chars(tail, rest);
        lemma_rt_char(s[0], spec_encode_chars(tail) + rest);
        assert((spec_encode_char(s[0]) + spec_encode_chars(tail)) + rest =~= spec_encode_char(
            s[0],
        ) + (spec_encode_chars(tail) + rest));
        assert(seq![s[0]] + tail =~= s);
    }
}

proof fn lemma_rt_str(s: Seq<char>, rest: Seq<u8>)
    requires
        fits_str(s),
    ensures
        spec_decode_str(spec_encode_str(s) + rest) == Some((s, rest)),
{
    lemma_rt_u64(s.len() as u64, spec_encode_chars(s) + rest);
    assert((spec_u64_to_le_bytes(s.len() as u64) + spec_encode_chars(s)) + rest
        =~= spec_u64_to_le_bytes(s.len() as u64) + (spec_encode_chars(s) + rest));
    lemma_rt_chars(s, rest);
    assert((s.len() as u64) as nat == s.len());
}

proof fn lemma_rt_opt_str(s: Option<Seq<char>>, rest: Seq<u8>)
    requires
        match s {
            Some(v) => fits_str(v),
            None => true,
        },
    ensures
        spec_decode_opt_str(spec_encode_opt_str(s) + rest) == Some((s, rest)),
{
    match s {
        None => {
            lemma_rt_u8(0u8, rest);
        },
        Some(v) => {
            lemma_rt_u8(1u8, spec_encode_str(v) + rest);
            assert((seq![1u8] + spec_encode_str(v)) + rest =~= seq![1u8] + (spec_encode_str(v)
                + rest));
            lemma_rt_str(v, rest);
        },
    }
}

proof fn lemma_rt_opt_char(c: Option<char>, rest: Seq<u8>)
    ensures
        spec_decode_opt_char(spec_encode_opt_char(c) + rest) == Some((c, rest)),
{
    match c {
        None => {
            lemma_rt_u8(0u8, rest);
        },
        Some(v) => {
            lemma_rt_u8(1u8, spec_encode_char(v) + rest);
            assert((seq![1u8] + spec_encode_char(v)) + rest =~= seq![1u8] + (spec_encode_char(v)
                + rest));
            lemma_rt_char(v, rest);
        },
    }
}

proof fn lemma_rt_strs(xs: Seq<Seq<char>>, rest: Seq<u8>)
    requires
        forall|i: int| 0 <= i < xs.len() ==> fits_str(#[trigger] xs[i]),
    ensures
        spec_decode_strs(xs.len(), spec_encode_strs(xs) + rest) == Some((xs, rest)),
    decreases xs.len(),
{
    if xs.len() == 0 {
        assert(spec_encode_strs(xs) + rest =~= rest);
        assert(Seq::<Seq<char>>::empty() =~= xs);
    } else {
        let tail = xs.drop_first();
        lemma_rt_strs(tail, rest);
        lemma_rt_str(xs[0], spec_encode_strs(tail) + rest);
        assert((spec_encode_str(xs[0]) + spec_encode_strs(tail)) + rest =~= spec_encode_str(
            xs[0],
        ) + (spec_encode_strs(tail) + rest));
        assert(seq![xs[0]] + tail =~= xs);
    }
}

proof fn lemma_rt_alt_names(xs: Seq<Seq<char>>, rest: Seq<u8>)
    requires
        xs.len() <= u64::MAX,
        forall|i: int| 0 <= i < xs.len() ==> fits_str(#[trigger] xs[i]),
    ensures
        spec_decode_alt_names(spec_encode_alt_names(xs) + rest) == Some((xs, rest)),
{
    lemma_rt_u64(xs.len() as u64, spec_encode_strs(xs) + rest);
    assert((spec_u64_to_le_bytes(xs.len() as u64) + spec_encode_strs(xs)) + rest
        =~= spec_u64_to_le_bytes(xs.len() as u64) + (spec_encode_strs(xs) + rest));
    lemma_rt_strs(xs, rest);
    assert((xs.len() as u64) as nat == xs.len());
}

proof fn lemma_rt_category(v: Category, rest: Seq<u8>)
    ensures
        spec_decode_category(seq![spec_category_tag(v)] + rest) == Some((v, rest)),
{
    lemma_rt_u8(spec_category_tag(v), rest);
    lemma_category_tag_rt(v);
}

proof fn lemma_rt_opt_sub(v: Option<SubCategory>, rest: Seq<u8>)
    ensures
        spec_decode_opt_sub(spec_encode_opt_sub(v) + rest) == Some((v, rest)),
{
    match v {
        None => {
            lemma_rt_u8(0u8, rest);
        },
        Some(x) => {
            let t = spec_sub_category_tag(x);
            assert(seq![1u8, t] =~= seq![1u8] + seq![t]);
            lemma_rt_u8(1u8, seq![t] + rest);
            assert((seq![1u8] + seq![t]) + rest =~= seq![1u8] + (seq![t] + rest));
            lemma_rt_u8(t, rest);
            lemma_sub_category_tag_rt(x);
        },
    }
}

proof fn lemma_rt_opt_case(v: Option<Case>, rest: Seq<u8>)
    ensures
        spec_decode_opt_case(spec_encode_opt_case(v) + rest) == Some((v, rest)),
{
    match v {
        None => {
            lemma_rt_u8(0u8, rest);
        },
        Some(x) => {
            let t = spec_case_axis_tag(x);
            assert(seq![1u8, t] =~= seq![1u8] + seq![t]);
            lemma_rt_u8(1u8, seq![t] + rest);
            assert((seq![1u8] + seq![t]) + rest =~= seq![1u8] + (seq![t] + rest));
            lemma_rt_u8(t, rest);
            lemma_case_axis_tag_rt(x);
        },
    }
}

proof fn lemma_rt_opt_script(v: Option<Script>, rest: Seq<u8>)
    ensures
        spec_decode_opt_script(spec_encode_opt_script(v) + rest) == Some((v, rest)),
{
    match v {
        None => {
            lemma_rt_u8(0u8, rest);
        },
        Some(x) => {
            let t = spec_script_tag(x);
            assert(seq![1u8, t] =~= seq![1u8] + seq![t]);
            lemma_rt_u8(1u8, seq![t] + rest);
            assert((seq![1u8] + seq![t]) + rest =~= seq![1u8] + (seq![t] + rest));
            lemma_rt_u8(t, rest);
            lemma_script_tag_rt(x);
        },
    }
}

proof fn lemma_rt_opt_direction(v: Option<Direction>, rest: Seq<u8>)
    ensures
        spec_decode_opt_direction(spec_encode_opt_direction(v) + rest) == Some((v, rest)),
{
    match v {
        None => {
            lemma_rt_u8(0u8, rest);
        },
        Some(x) => {
            let t = spec_direction_tag(x);
            assert(seq![1u8, t] =~= seq![1u8] + seq![t]);
            lemma_rt_u8(1u8, seq![t] + rest);
            assert((seq![1u8] + seq![t]) + rest =~= seq![1u8] + (seq![t] + rest));
            lemma_rt_u8(t, rest);
            lemma_direction_tag_rt(x);
        },
    }
}


proof fn lemma_seq_assoc(a: Seq<u8>, b: Seq<u8>, c: Seq<u8>)
    ensures
        (a + b) + c == a + (b + c),
{
    assert((a + b) + c =~= a + (b + c));
}

#[verifier::rlimit(100)]
proof fn lemma_rt_entry(name: Seq<char>, r: RecordView, rest: Seq<u8>)
    requires
        fits_str(name),
        fits_record(r),
    ensures
        spec_decode_entry(spec_encode_entry(name, r) + rest) == Some(((name, r), rest)),
{
    let e1 = spec_encode_str(name);
    let e2 = spec_encode_opt_char(r.unicode);
    let e3 = seq![spec_category_tag(r.category)];
    let e4 = spec_encode_opt_sub(r.sub_category);
    let e5 = spec_encode_opt_case(r.case);
    let e6 = spec_encode_opt_script(r.script);
    let e7 = spec_encode_opt_direction(r.direction);
    let e8 = spec_encode_opt_str(r.description);
    let e9 = spec_encode_opt_str(r.production_name);
    let e10 = spec_encode_alt_names(r.alternative_names);
    let t10 = e10 + rest;
    let t9 = e9 + t10;
    let t8 = e8 + t9;
    let t7 = e7 + t8;
    let t6 = e6 + t7;
    let t5 = e5 + t6;
    let t4 = e4 + t5;
    let t3 = e3 + t4;
    let t2 = e2 + t3;
    let x9 = e9 + e10;
    let x8 = e8 + x9;
    let x7 = e7 + x8;
    let x6 = e6 + x7;
    let x5 = e5 + x6;
    let x4 = e4 + x5;
    let x3 = e3 + x4;
    let x2 = e2 + x3;
    lemma_seq_assoc(e9, e10, rest);
    assert(t9 == x9 + rest);
    lemma_seq_assoc(e8, x9, rest);
    assert(t8 == x8 + rest);
    lemma_seq_assoc(e7, x8, rest);
    assert(t7 == x7 + rest);
    lemma_seq_assoc(e6, x7, rest);
    assert(t6 == x6 + rest);
    lemma_seq_assoc(e5, x6, rest);
    assert(t5 == x5 + rest);
    lemma_seq_assoc(e4, x5, rest);
    assert(t4 == x4 + rest);
    lemma_seq_assoc(e3, x4, rest);
    assert(t3 == x3 + rest);
    lemma_seq_assoc(e2, x3, rest);
    assert(t2 == x2 + rest);
    lemma_seq_assoc(e1, x2, rest);
    assert(spec_encode_entry(name, r) == e1 + x2);
    assert(spec_encode_entry(name, r) + rest == e1 + t2);
    lemma_rt_str(name, t2);
    assert(spec_decode_str(e1 + t2) == Some((name, t2)));
    lemma_rt_opt_char(r.unicode, t3);
    assert(spec_decode_opt_char(t2) == Some((r.unicode, t3)));
    lemma_rt_category(r.category, t4);
    assert(spec_decode_category(t3) == Some((r.category, t4)));
    lemma_rt_opt_sub(r.sub_category, t5);
    assert(spec_decode_opt_sub(t4) == Some((r.sub_category, t5)));
    lemma_rt_opt_case(r.case, t6);
    assert(spec_decode_opt_case(t5) == Some((r.case, t6)));
    lemma_rt_opt_script(r.script, t7);
    assert(spec_decode_opt_script(t6) == Some((r.script, t7)));
    lemma_rt_opt_direction(r.direction, t8);
    assert(spec_decode_opt_direction(t7) == Some((r.direction, t8)));
    lemma_rt_opt_str(r.description, t9);
    assert(spec_decode_opt_str(t8) == Some((r.description, t9)));
    lemma_rt_opt_str(r.production_name, t10);
    assert(spec_decode_opt_str(t9) == Some((r.production_name, t10)));
    lemma_rt_alt_names(r.alternative_names, rest);
    assert(spec_decode_alt_names(t10) == Some((r.alternative_names, rest)));
    assert(RecordView {
        unicode: r.unicode,
        category: r.category,
        sub_category: r.sub_category,
        case: r.case,
        script: r.script,
        direction: r.direction,
        description: r.description,
        production_name: r.production_name,
        alternative_names: r.alternative_names,
    } == r);
}

#[verifier::rlimit(80)]
proof fn lemma_rt_entries(names: Seq<Seq<char>>, records: Seq<RecordView>, rest: Seq<u8>)
    requires
        names.len() == records.len(),
        forall|i: int| 0 <= i < names.len() ==> fits_str(#[trigger] names[i]),
        forall|i: int| 0 <= i < records.len() ==> fits_record(#[trigger] records[i]),
    ensures
        spec_decode_entries(records.len(), spec_encode_entries(names, records) + rest) == Some(
            ((names, records), rest),
        ),
    decreases records.len(),
{
    if records.len() == 0 {
        assert(spec_encode_entries(names, records) + rest =~= rest);
        assert(Seq::<Seq<char>>::empty() =~= names);
        assert(Seq::<RecordView>::empty() =~= records);
    } else {
        let ntail = names.drop_first();
        let rtail = records.drop_first();
        lemma_rt_entries(ntail, rtail, rest);
        lemma_rt_entry(names[0], records[0], spec_encode_entries(ntail, rtail) + rest);
        assert((spec_encode_entry(names[0], records[0]) + spec_encode_entries(ntail, rtail))
            + rest =~= spec_encode_entry(names[0], records[0]) + (spec_encode_entries(
            ntail,
            rtail,
        ) + rest));
        assert(seq![names[0]] + ntail =~= names);
        assert(seq![records[0]] + rtail =~= records);
    }
}

/// The round-trip law: decoding an encoded snapshot yields back exactly
/// the names and records that were written.
pub proof fn lemma_snapshot_round_trip(names: Seq<Seq<char>>, records: Seq<RecordView>)
    requires
        fits_snapshot(names, records),
    ensures
        spec_decode_snapshot(spec_encode_snapshot(names, records)) == Some((names, records)),
{
    lemma_rt_u64(records.len() as u64, spec_encode_entries(names, records));
    assert(spec_encode_snapshot(names, records) =~= spec_u64_to_le_bytes(records.len() as u64)
        + (spec_encode_entries(names, records) + Seq::<u8>::empty()));
    assert(spec_encode_entries(names, records) + Seq::<u8>::empty() =~= spec_encode_entries(
        names,
        records,
    ));
    lemma_rt_entries(names, records, Seq::<u8>::empty());
    assert((records.len() as u64) as nat == records.len());
}

// ---------------------------------------------------------------------------
// Writing a snapshot.
// ---------------------------------------------------------------------------

proof fn lemma_encode_chars_app(s1: Seq<char>, s2: Seq<char>)
    ensures
        spec_encode_chars(s1 + s2) == spec_encode_chars(s1) + spec_encode_chars(s2),
    decreases s1.len(),
{
    if s1.len() == 0 {
        assert(s1 + s2 =~= s2);
        assert(spec_encode_chars(s1) + spec_encode_chars(s2) =~= spec_encode_chars(s2));
    } else {
        assert((s1 + s2).drop_first() =~= s1.drop_first() + s2);
        lemma_encode_chars_app(s1.drop_first(), s2);
        lemma_seq_assoc(
            spec_encode_char(s1[0]),
            spec_encode_chars(s1.drop_first()),
            spec_encode_chars(s2),
        );
    }
}

proof fn lemma_encode_strs_app(x1: Seq<Seq<char>>, x2: Seq<Seq<char>>)
    ensures
        spec_encode_strs(x1 + x2) == spec_encode_strs(x1) + spec_encode_strs(x2),
    decreases x1.len(),
{
    if x1.len() == 0 {
        assert(x1 + x2 =~= x2);
        assert(spec_encode_strs(x1) + spec_encode_strs(x2) =~= spec_encode_strs(x2));
    } else {
        assert((x1 + x2).drop_first() =~= x1.drop_first() + x2);
        lemma_encode_strs_app(x1.drop_first(), x2);
        lemma_seq_assoc(
            spec_encode_str(x1[0]),
            spec_encode_strs(x1.drop_first()),
            spec_encode_strs(x2),
        );
    }
}

proof fn lemma_encode_entries_app(
    n1: Seq<Seq<char>>,
    r1: Seq<RecordView>,
    n2: Seq<Seq<char>>,
    r2: Seq<RecordView>,
)
    requires
        n1.len() == r1.len(),
    ensures
        spec_encode_entries(n1 + n2, r1 + r2) == spec_encode_entries(n1, r1)
            + spec_encode_entries(n2, r2),
    decreases r1.len(),
{
    if r1.len() == 0 {
        assert(n1 + n2 =~= n2);
        assert(r1 + r2 =~= r2);
        assert(spec_encode_entries(n1, r1) + spec_encode_entries(n2, r2) =~= spec_encode_entries(
            n2,
            r2,
        ));
    } else {
        assert((n1 + n2).drop_first() =~= n1.drop_first() + n2);
        assert((r1 + r2).drop_first() =~= r1.drop_first() + r2);
        assert((n1 + n2)[0] == n1[0]);
        assert((r1 + r2)[0] == r1[0]);
        lemma_encode_entries_app(n1.drop_first(), r1.drop_first(), n2, r2);
        lemma_seq_assoc(
            spec_encode_entry(n1[0], r1[0]),
            spec_encode_entries(n1.drop_first(), r1.drop_first()),
            spec_encode_entries(n2, r2),
        );
    }
}

fn emit_u64(out: &mut Vec<u8>, x: u64)
    ensures
        final(out)@ == old(out)@ + spec_u64_to_le_bytes(x),
{
    let mut b = u64_to_le_bytes(x);
    out.append(&mut b);
}

fn emit_char(out: &mut Vec<u8>, c: char)
    ensures
        final(out)@ == old(out)@ + spec_encode_char(c),
{
    let mut b = u32_to_le_bytes(c as u32);
    out.append(&mut b);
}

fn emit_str(out: &mut Vec<u8>, s: &str)
    ensures
        final(out)@ == old(out)@ + spec_encode_str(s@),
        fits_str(s@),
{
    let n = s.unicode_len();
    emit_u64(out, n as u64);
    let ghost mid = out@;
    let cs = chars_of(s);
    let mut i: usize = 0;
    while i < cs.len()
        invariant
            i <= cs@.len(),
            cs@ == s@,
            out@ == mid + spec_encode_chars(s@.take(i as int)),
        decreases cs@.len() - i,
    {
        let ghost before = out@;
        emit_char(out, cs[i]);
        proof {
            assert(s@.take(i + 1 as int) =~= s@.take(i as int) + seq![s@[i as int]]);
            lemma_encode_chars_app(s@.take(i as int), seq![s@[i as int]]);
            assert(seq![s@[i as int]].drop_first() =~= Seq::<char>::empty());
            assert(spec_encode_chars(Seq::<char>::empty()) == Seq::<u8>::empty());
            assert(spec_encode_chars(seq![s@[i as int]]) =~= spec_encode_char(s@[i as int]));
            lemma_seq_assoc(
                mid,
                spec_encode_chars(s@.take(i as int)),
                spec_encode_char(s@[i as int]),
            );
        }
        i = i + 1;
    }
    proof {
        assert(s@.take(s@.len() as int) =~= s@);
        lemma_seq_assoc(old(out)@, spec_u64_to_le_bytes(s@.len() as u64), spec_encode_chars(s@));
    }
}

fn emit_opt_str(out: &mut Vec<u8>, s: &Option<String>)
    ensures
        final(out)@ == old(out)@ + spec_encode_opt_str(s.deep_view()),
        match s.deep_view() {
            Some(v) => fits_str(v),
            None => true,
        },
{
    match s {
        None => {
            out.push(0u8);
            proof {
                assert(out@ =~= old(out)@ + seq![0u8]);
            }
        },
        Some(v) => {
            out.push(1u8);
            proof {
                assert(out@ =~= old(out)@ + seq![1u8]);
            }
            emit_str(out, v.as_str());
            proof {
                lemma_seq_assoc(old(out)@, seq![1u8], spec_encode_str(v@));
            }
        },
    }
}

fn emit_opt_char(out: &mut Vec<u8>, c: &Option<char>)
    ensures
        final(out)@ == old(out)@ + spec_encode_opt_char(*c),
{
    match c {
        None => {
            out.push(0u8);
            proof {
                assert(out@ =~= old(out)@ + seq![0u8]);
            }
        },
        Some(v) => {
            out.push(1u8);
            emit_char(out, *v);
            proof {
                assert(old(out)@.push(1u8) =~= old(out)@ + seq![1u8]);
                lemma_seq_assoc(old(out)@, seq![1u8], spec_encode_char(*v));
            }
        },
    }
}

fn emit_opt_sub(out: &mut Vec<u8>, v: &Option<SubCategory>)
    ensures
        final(out)@ == old(out)@ + spec_encode_opt_sub(*v),
{
    match v {
        None => {
            out.push(0u8);
            proof {
                assert(out@ =~= old(out)@ + seq![0u8]);
            }
        },
        Some(x) => {
            out.push(1u8);
            out.push(sub_category_tag(*x));
            proof {
                assert(out@ =~= old(out)@ + seq![1u8, spec_sub_category_tag(*x)]);
            }
        },
    }
}

fn emit_opt_case(out: &mut Vec<u8>, v: &Option<Case>)
    ensures
        final(out)@ == old(out)@ + spec_encode_opt_case(*v),
{
    match v {
        None => {
            out.push(0u8);
            proof {
                assert(out@ =~= old(out)@ + seq![0u8]);
            }
        },
        Some(x) => {
            out.push(1u8);
            out.push(case_axis_tag(*x));
            proof {
                assert(out@ =~= old(out)@ + seq![1u8, spec_case_axis_tag(*x)]);
            }
        },
    }
}

fn emit_opt_script(out: &mut Vec<u8>, v: &Option<Script>)
    ensures
        final(out)@ == old(out)@ + spec_encode_opt_script(*v),
{
    match v {
        None => {
            out.push(0u8);
            proof {
                assert(out@ =~= old(out)@ + seq![0u8]);
            }
        },
        Some(x) => {
            out.push(1u8);
            out.push(script_tag(*x));
            proof {
                assert(out@ =~= old(out)@ + seq![1u8, spec_script_tag(*x)]);
            }
        },
    }
}

fn emit_opt_direction(out: &mut Vec<u8>, v: &Option<Direction>)
    ensures
        final(out)@ == old(out)@ + spec_encode_opt_direction(*v),
{
    match v {
        None => {
            out.push(0u8);
            proof {
                assert(out@ =~= old(out)@ + seq![0u8]);
            }
        },
        Some(x) => {
            out.push(1u8);
            out.push(direction_tag(*x));
            proof {
                assert(out@ =~= old(out)@ + seq![1u8, spec_direction_tag(*x)]);
            }
        },
    }
}

fn emit_alt_names(out: &mut Vec<u8>, xs: &Vec<String>)
    ensures
        final(out)@ == old(out)@ + spec_encode_alt_names(xs.deep_view()),
        xs.deep_view().len() <= u64::MAX,
        forall|i: int|
            0 <= i < xs.deep_view().len() ==> fits_str(#[trigger] xs.deep_view()[i]),
{
    let ghost dv = xs.deep_view();
    emit_u64(out, xs.len() as u64);
    let ghost mid = out@;
    let mut i: usize = 0;
    while i < xs.len()
        invariant
            i <= xs@.len(),
            dv == xs.deep_view(),
            dv.len() == xs@.len(),
            out@ == mid + spec_encode_strs(dv.take(i as int)),
            forall|j: int| 0 <= j < i ==> fits_str(#[trigger] dv[j]),
        decreases xs@.len() - i,
    {
        proof {
            assert(dv[i as int] == xs@[i as int]@);
        }
        emit_str(out, xs[i].as_str());
        proof {
            assert(dv.take(i + 1 as int) =~= dv.take(i as int) + seq![dv[i as int]]);
            lemma_encode_strs_app(dv.take(i as int), seq![dv[i as int]]);
            assert(seq![dv[i as int]].drop_first() =~= Seq::<Seq<char>>::empty());
            assert(spec_encode_strs(Seq::<Seq<char>>::empty()) == Seq::<u8>::empty());
            assert(spec_encode_strs(seq![dv[i as int]]) =~= spec_encode_str(dv[i as int]));
            lemma_seq_assoc(mid, spec_encode_strs(dv.take(i as int)), spec_encode_str(dv[i as int]));
        }
        i = i + 1;
    }
    proof {
        assert(dv.take(dv.len() as int) =~= dv);
        lemma_seq_assoc(old(out)@, spec_u64_to_le_bytes(dv.len() as u64), spec_encode_strs(dv));
    }
}

#[verifier::rlimit(100)]
fn emit_entry(out: &mut Vec<u8>, name: &String, r: &Record)
    ensures
        final(out)@ == old(out)@ + spec_encode_entry(name@, r@),
        fits_str(name@),
        fits_record(r@),
{
    let ghost e1 = spec_encode_str(name@);
    let ghost e2 = spec_encode_opt_char(r@.unicode);
    let ghost e3 = seq![spec_category_tag(r@.category)];
    let ghost e4 = spec_encode_opt_sub(r@.sub_category);
    let ghost e5 = spec_encode_opt_case(r@.case);
    let ghost e6 = spec_encode_opt_script(r@.script);
    let ghost e7 = spec_encode_opt_direction(r@.direction);
    let ghost e8 = spec_encode_opt_str(r@.description);
    let ghost e9 = spec_encode_opt_str(r@.production_name);
    let ghost e10 = spec_encode_alt_names(r@.alternative_names);
    emit_str(out, name.as_str());
    emit_opt_char(out, &r.unicode);
    out.push(category_tag(r.category));
    let ghost a3 = out@;
    proof {
        assert(a3 =~= ((old(out)@ + e1) + e2) + e3);
    }
    emit_opt_sub(out, &r.sub_category);
    emit_opt_case(out, &r.case);
    emit_opt_script(out, &r.script);
    emit_opt_direction(out, &r.direction);
    emit_opt_str(out, &r.description);
    emit_opt_str(out, &r.production_name);
    emit_alt_names(out, &r.alternative_names);
    proof {
        let x9 = e9 + e10;
        let x8 = e8 + x9;
        let x7 = e7 + x8;
        let x6 = e6 + x7;
        let x5 = e5 + x6;
        let x4 = e4 + x5;
        let x3 = e3 + x4;
        let x2 = e2 + x3;
        let a4 = a3 + e4;
        let a5 = a4 + e5;
        let a6 = a5 + e6;
        let a7 = a6 + e7;
        let a8 = a7 + e8;
        let a9 = a8 + e9;
        assert(out@ == a9 + e10);
        lemma_seq_assoc(a8, e9, e10);
        assert(out@ == a8 + x9);
        lemma_seq_assoc(a7, e8, x9);
        assert(out@ == a7 + x8);
        lemma_seq_assoc(a6, e7, x8);
        assert(out@ == a6 + x7);
        lemma_seq_assoc(a5, e6, x6);
        lemma_seq_assoc(a5, e6, x7);
        assert(out@ == a5 + x6);
        lemma_seq_assoc(a4, e5, x6);
        assert(out@ == a4 + x5);
        lemma_seq_assoc(a3, e4, x5);
        assert(out@ == a3 + x4);
        lemma_seq_assoc((old(out)@ + e1) + e2, e3, x4);
        assert(out@ == ((old(out)@ + e1) + e2) + x3);
        lemma_seq_assoc(old(out)@ + e1, e2, x3);
        assert(out@ == (old(out)@ + e1) + x2);
        lemma_seq_assoc(old(out)@, e1, x2);
        assert(e1 + x2 == spec_encode_entry(name@, r@));
    }
}

impl GlyphData {
    /// Writes the record sequence as a snapshot: the record count, then
    /// each record with its primary name, field by field.
    pub fn to_snapshot(&self) -> (out: Vec<u8>)
        ensures
            out@ == spec_encode_snapshot(self@.names, self@.records),
            fits_snapshot(self@.names, self@.records),
            self@ == spec_store_of(self@.names, self@.records),
    {
        let names = self.names();
        let records = self.records();
        let ghost nv = self@.names;
        let ghost rv = self@.records;
        let mut out: Vec<u8> = Vec::new();
        emit_u64(&mut out, records.len() as u64);
        let ghost mid = out@;
        proof {
            assert(mid =~= spec_u64_to_le_bytes(rv.len() as u64));
        }
        let mut i: usize = 0;
        while i < records.len()
            invariant
                i <= rv.len(),
                nv == self@.names,
                rv == self@.records,
                nv.len() == rv.len(),
                names.deep_view() == nv,
                records_view(records@) == rv,
                records@.len() == rv.len(),
                names@.len() == nv.len(),
                mid == spec_u64_to_le_bytes(rv.len() as u64),
                out@ == mid + spec_encode_entries(nv.take(i as int), rv.take(i as int)),
                forall|j: int| 0 <= j < i ==> fits_str(#[trigger] nv[j]),
                forall|j: int| 0 <= j < i ==> fits_record(#[trigger] rv[j]),
            decreases rv.len() - i,
        {
            proof {
                assert(nv[i as int] == names@[i as int]@);
                assert(rv[i as int] == records@[i as int]@);
            }
            emit_entry(&mut out, &names[i], &records[i]);
            proof {
                assert(nv.take(i + 1 as int) =~= nv.take(i as int) + seq![nv[i as int]]);
                assert(rv.take(i + 1 as int) =~= rv.take(i as int) + seq![rv[i as int]]);
                lemma_encode_entries_app(
                    nv.take(i as int),
                    rv.take(i as int),
                    seq![nv[i as int]],
                    seq![rv[i as int]],
                );
                assert(seq![nv[i as int]].drop_first() =~= Seq::<Seq<char>>::empty());
                assert(seq![rv[i as int]].drop_first() =~= Seq::<RecordView>::empty());
                assert(spec_encode_entries(Seq::<Seq<char>>::empty(), Seq::<RecordView>::empty())
                    == Seq::<u8>::empty());
                assert(spec_encode_entries(seq![nv[i as int]], seq![rv[i as int]])
                    =~= spec_encode_entry(nv[i as int], rv[i as int]));
                lemma_seq_assoc(
                    mid,
                    spec_encode_entries(nv.take(i as int), rv.take(i as int)),
                    spec_encode_entry(nv[i as int], rv[i as int]),
                );
            }
            i = i + 1;
        }
        proof {
            assert(nv.take(nv.len() as int) =~= nv);
            assert(rv.take(rv.len() as int) =~= rv);
        }
        out
    }
}

// ---------------------------------------------------------------------------
// Reading a snapshot.
// ---------------------------------------------------------------------------

fn read_u64(b: &[u8], pos: &mut usize) -> (r: Option<u64>)
    requires
        *old(pos) <= b@.len(),
    ensures
        *final(pos) <= b@.len(),
        match r {
            Some(x) => spec_decode_u64(b@.skip(*old(pos) as int)) == Some(
                (x, b@.skip(*final(pos) as int)),
            ),
            None => spec_decode_u64(b@.skip(*old(pos) as int)) is None,
        },
{
    if b.len() - *pos >= 8 {
        let s = slice_subrange(b, *pos, *pos + 8);
        let x = u64_from_le_bytes(s);
        proof {
            assert(b@.skip(*pos as int).take(8) =~= b@.subrange(*pos as int, *pos + 8 as int));
            assert(b@.skip(*pos as int).skip(8) =~= b@.skip((*pos + 8) as int));
        }
        *pos = *pos + 8;
        Some(x)
    } else {
        None
    }
}

fn read_u8(b: &[u8], pos: &mut usize) -> (r: Option<u8>)
    requires
        *old(pos) <= b@.len(),
    ensures
        *final(pos) <= b@.len(),
        match r {
            Some(t) => spec_decode_u8(b@.skip(*old(pos) as int)) == Some(
                (t, b@.skip(*final(pos) as int)),
            ),
            None => spec_decode_u8(b@.skip(*old(pos) as int)) is None,
        },
{
    if b.len() - *pos >= 1 {
        let t = b[*pos];
        proof {
            assert(b@.skip(*pos as int)[0] == b@[*pos as int]);
            assert(b@.skip(*pos as int).drop_first() =~= b@.skip((*pos + 1) as int));
        }
        *pos = *pos + 1;
        Some(t)
    } else {
        None
    }
}

fn read_char(b: &[u8], pos: &mut usize) -> (r: Option<char>)
    requires
        *old(pos) <= b@.len(),
    ensures
        *final(pos) <= b@.len(),
        match r {
            Some(c) => spec_decode_char(b@.skip(*old(pos) as int)) == Some(
                (c, b@.skip(*final(pos) as int)),
            ),
            None => spec_decode_char(b@.skip(*old(pos) as int)) is None,
        },
{
    if b.len() - *pos >= 4 {
        let s = slice_subrange(b, *pos, *pos + 4);
        let v = u32_from_le_bytes(s);
        proof {
            assert(b@.skip(*pos as int).take(4) =~= b@.subrange(*pos as int, *pos + 4 as int));
            assert(b@.skip(*pos as int).skip(4) =~= b@.skip((*pos + 4) as int));
        }
        match char_from_u32(v) {
            Some(c) => {
                proof {
                    vstd::utf8::char_u32_cast(c, v);
                }
                *pos = *pos + 4;
                Some(c)
            },
            None => None,
        }
    } else {
        None
    }
}

fn read_chars(b: &[u8], pos: &mut usize, n: u64) -> (r: Option<String>)
    requires
        *old(pos) <= b@.len(),
    ensures
        *final(pos) <= b@.len(),
        match r {
            Some(s) => spec_decode_chars(n as nat, b@.skip(*old(pos) as int)) == Some(
                (s@, b@.skip(*final(pos) as int)),
            ),
            None => spec_decode_chars(n as nat, b@.skip(*old(pos) as int)) is None,
        },
{
    let mut s = String::new();
    let mut i: u64 = 0;
    while i < n
        invariant
            i <= n,
            *pos <= b@.len(),
            (match spec_decode_chars((n - i) as nat, b@.skip(*pos as int)) {
                Some((s2, r2)) => spec_decode_chars(n as nat, b@.skip(*old(pos) as int)) == Some(
                    (s@ + s2, r2),
                ),
                None => spec_decode_chars(n as nat, b@.skip(*old(pos) as int)) is None,
            }),
        decreases n - i,
    {
        let ghost before = s@;
        match read_char(b, pos) {
            Some(c) => {
                push_char(&mut s, c);
                proof {
                    if spec_decode_chars((n - i - 1) as nat, b@.skip(*pos as int)) is Some {
                        let (s3, r3) = spec_decode_chars(
                            (n - i - 1) as nat,
                            b@.skip(*pos as int),
                        )->0;
                        assert(before + (seq![c] + s3) =~= s@ + s3);
                    }
                }
            },
            None => {
                return None;
            },
        }
        i = i + 1;
    }
    proof {
        assert(s@ + Seq::<char>::empty() =~= s@);
    }
    Some(s)
}

fn read_str(b: &[u8], pos: &mut usize) -> (r: Option<String>)
    requires
        *old(pos) <= b@.len(),
    ensures
        *final(pos) <= b@.len(),
        match r {
            Some(s) => spec_decode_str(b@.skip(*old(pos) as int)) == Some(
                (s@, b@.skip(*final(pos) as int)),
            ),
            None => spec_decode_str(b@.skip(*old(pos) as int)) is None,
        },
{
    match read_u64(b, pos) {
        Some(n) => read_chars(b, pos, n),
        None => None,
    }
}

fn read_opt_str(b: &[u8], pos: &mut usize) -> (r: Option<Option<String>>)
    requires
        *old(pos) <= b@.len(),
    ensures
        *final(pos) <= b@.len(),
        match r {
            Some(s) => spec_decode_opt_str(b@.skip(*old(pos) as int)) == Some(
                (s.deep_view(), b@.skip(*final(pos) as int)),
            ),
            None => spec_decode_opt_str(b@.skip(*old(pos) as int)) is None,
        },
{
    match read_u8(b, pos) {
        Some(t) => {
            if t == 0 {
                Some(None)
            } else if t == 1 {
                match read_str(b, pos) {
                    Some(s) => Some(Some(s)),
                    None => None,
                }
            } else {
                None
            }
        },
        None => None,
    }
}

fn read_opt_char(b: &[u8], pos: &mut usize) -> (r: Option<Option<char>>)
    requires
        *old(pos) <= b@.len(),
    ensures
        *final(pos) <= b@.len(),
        match r {
            Some(c) => spec_decode_opt_char(b@.skip(*old(pos) as int)) == Some(
                (c, b@.skip(*final(pos) as int)),
            ),
            None => spec_decode_opt_char(b@.skip(*old(pos) as int)) is None,
        },
{
    match read_u8(b, pos) {
        Some(t) => {
            if t == 0 {
                Some(None)
            } else if t == 1 {
                match read_char(b, pos) {
                    Some(c) => Some(Some(c)),
                    None => None,
                }
            } else {
                None
            }
        },
        None => None,
    }
}

fn read_category(b: &[u8], pos: &mut usize) -> (r: Option<Category>)
    requires
        *old(pos) <= b@.len(),
    ensures
        *final(pos) <= b@.len(),
        match r {
            Some(v) => spec_decode_category(b@.skip(*old(pos) as int)) == Some(
                (v, b@.skip(*final(pos) as int)),
            ),
            None => spec_decode_category(b@.skip(*old(pos) as int)) is None,
        },
{
    match read_u8(b, pos) {
        Some(t) => category_of_tag(t),
        None => None,
    }
}

fn read_opt_sub(b: &[u8], pos: &mut usize) -> (r: Option<Option<SubCategory>>)
    requires
        *old(pos) <= b@.len(),
    ensures
        *final(pos) <= b@.len(),
        match r {
            Some(v) => spec_decode_opt_sub(b@.skip(*old(pos) as int)) == Some(
                (v, b@.skip(*final(pos) as int)),
            ),
            None => spec_decode_opt_sub(b@.skip(*old(pos) as int)) is None,
        },
{
    match read_u8(b, pos) {
        Some(t) => {
            if t == 0 {
                Some(None)
            } else if t == 1 {
                match read_u8(b, pos) {
                    Some(t2) => match sub_category_of_tag(t2) {
                        Some(v) => Some(Some(v)),
                        None => None,
                    },
                    None => None,
                }
            } else {
                None
            }
        },
        None => None,
    }
}

fn read_opt_case(b: &[u8], pos: &mut usize) -> (r: Option<Option<Case>>)
    requires
        *old(pos) <= b@.len(),
    ensures
        *final(pos) <= b@.len(),
        match r {
            Some(v) => spec_decode_opt_case(b@.skip(*old(pos) as int)) == Some(
                (v, b@.skip(*final(pos) as int)),
            ),
            None => spec_decode_opt_case(b@.skip(*old(pos) as int)) is None,
        },
{
    match read_u8(b, pos) {
        Some(t) => {
            if t == 0 {
                Some(None)
            } else if t == 1 {
                match read_u8(b, pos) {
                    Some(t2) => match case_axis_of_tag(t2) {
                        Some(v) => Some(Some(v)),
                        None => None,
                    },
                    None => None,
                }
            } else {
                None
            }
        },
        None => None,
    }
}

fn read_opt_script(b: &[u8], pos: &mut usize) -> (r: Option<Option<Script>>)
    requires
        *old(pos) <= b@.len(),
    ensures
        *final(pos) <= b@.len(),
        match r {
            Some(v) => spec_decode_opt_script(b@.skip(*old(pos) as int)) == Some(
                (v, b@.skip(*final(pos) as int)),
            ),
            None => spec_decode_opt_script(b@.skip(*old(pos) as int)) is None,
        },
{
    match read_u8(b, pos) {
        Some(t) => {
            if t == 0 {
                Some(None)
            } else if t == 1 {
                match read_u8(b, pos) {
                    Some(t2) => match script_of_tag(t2) {
                        Some(v) => Some(Some(v)),
                        None => None,
                    },
                    None => None,
                }
            } else {
                None
            }
        },
        None => None,
    }
}

fn read_opt_direction(b: &[u8], pos: &mut usize) -> (r: Option<Option<Direction>>)
    requires
        *old(pos) <= b@.len(),
    ensures
        *final(pos) <= b@.len(),
        match r {
            Some(v) => spec_decode_opt_direction(b@.skip(*old(pos) as int)) == Some(
                (v, b@.skip(*final(pos) as int)),
            ),
            None => spec_decode_opt_direction(b@.skip(*old(pos) as int)) is None,
        },
{
    match read_u8(b, pos) {
        Some(t) => {
            if t == 0 {
                Some(None)
            } else if t == 1 {
                match read_u8(b, pos) {
                    Some(t2) => match direction_of_tag(t2) {
                        Some(v) => Some(Some(v)),
                        None => None,
                    },
                    None => None,
                }
            } else {
                None
            }
        },
        None => None,
    }
}

fn read_alt_names(b: &[u8], pos: &mut usize) -> (r: Option<Vec<String>>)
    requires
        *old(pos) <= b@.len(),
    ensures
        *final(pos) <= b@.len(),
        match r {
            Some(v) => spec_decode_alt_names(b@.skip(*old(pos) as int)) == Some(
                (v.deep_view(), b@.skip(*final(pos) as int)),
            ),
            None => spec_decode_alt_names(b@.skip(*old(pos) as int)) is None,
        },
{
    let n = match read_u64(b, pos) {
        Some(n) => n,
        None => {
            return None;
        },
    };
    let ghost pos1 = *pos;
    let mut out: Vec<String> = Vec::new();
    proof {
        assert(out.deep_view() =~= Seq::<Seq<char>>::empty());
    }
    let mut i: u64 = 0;
    while i < n
        invariant
            i <= n,
            *pos <= b@.len(),
            spec_decode_u64(b@.skip(*old(pos) as int)) == Some((n, b@.skip(pos1 as int))),
            (match spec_decode_strs((n - i) as nat, b@.skip(*pos as int)) {
                Some((xs2, r2)) => spec_decode_strs(n as nat, b@.skip(pos1 as int)) == Some(
                    (out.deep_view() + xs2, r2),
                ),
                None => spec_decode_strs(n as nat, b@.skip(pos1 as int)) is None,
            }),
        decreases n - i,
    {
        let ghost before = out.deep_view();
        match read_str(b, pos) {
            Some(s) => {
                out.push(s);
                proof {
                    assert(out.deep_view() =~= before.push(out@[out@.len() - 1]@));
                    if spec_decode_strs((n - i - 1) as nat, b@.skip(*pos as int)) is Some {
                        let (xs3, r3) = spec_decode_strs(
                            (n - i - 1) as nat,
                            b@.skip(*pos as int),
                        )->0;
                        assert(before + (seq![out@[out@.len() - 1]@] + xs3) =~= out.deep_view()
                            + xs3);
                    }
                }
            },
            None => {
                return None;
            },
        }
        i = i + 1;
    }
    proof {
        assert(out.deep_view() + Seq::<Seq<char>>::empty() =~= out.deep_view());
    }
    Some(out)
}

#[verifier::rlimit(100)]
fn read_entry(b: &[u8], pos: &mut usize) -> (r: Option<(String, Record)>)
    requires
        *old(pos) <= b@.len(),
    ensures
        *final(pos) <= b@.len(),
        match r {
            Some(e) => spec_decode_entry(b@.skip(*old(pos) as int)) == Some(
                ((e.0@, e.1@), b@.skip(*final(pos) as int)),
            ),
            None => spec_decode_entry(b@.skip(*old(pos) as int)) is None,
        },
{
    let name = match read_str(b, pos) {
        Some(v) => v,
        None => {
            return None;
        },
    };
    let unicode = match read_opt_char(b, pos) {
        Some(v) => v,
        None => {
            return None;
        },
    };
    let category = match read_category(b, pos) {
        Some(v) => v,
        None => {
            return None;
        },
    };
    let sub_category = match read_opt_sub(b, pos) {
        Some(v) => v,
        None => {
            return None;
        },
    };
    let case = match read_opt_case(b, pos) {
        Some(v) => v,
        None => {
            return None;
        },
    };
    let script = match read_opt_script(b, pos) {
        Some(v) => v,
        None => {
            return None;
        },
    };
    let direction = match read_opt_direction(b, pos) {
        Some(v) => v,
        None => {
            return None;
        },
    };
    let description = match read_opt_str(b, pos) {
        Some(v) => v,
        None => {
            return None;
        },
    };
    let production_name = match read_opt_str(b, pos) {
        Some(v) => v,
        None => {
            return None;
        },
    };
    let alternative_names = match read_alt_names(b, pos) {
        Some(v) => v,
        None => {
            return None;
        },
    };
    Some(
        (
            name,
            Record {
                unicode,
                category,
                sub_category,
                case,
                script,
                direction,
                description,
                production_name,
                alternative_names,
            },
        ),
    )
}

impl GlyphData {
    /// Reads a snapshot back into a store, rebuilding every index from
    /// the decoded record sequence; any byte that does not fit the wire
    /// form, and any trailing byte, refuses the whole snapshot.
    #[verifier::rlimit(100)]
    pub fn from_snapshot(bytes: &[u8]) -> (r: Result<GlyphData, IngestError>)
        ensures
            match r {
                Ok(gd) => {
                    &&& spec_decode_snapshot(bytes@) == Some((gd@.names, gd@.records))
                    &&& gd@ == spec_store_of(gd@.names, gd@.records)
                    &&& gd@.names.len() == gd@.records.len()
                },
                Err(e) => e@ == ErrorView::CorruptSnapshot && spec_decode_snapshot(
                    bytes@,
                ) is None,
            },
    {
        let mut pos: usize = 0;
        proof {
            assert(bytes@.skip(0) =~= bytes@);
        }
        let count = match read_u64(bytes, &mut pos) {
            Some(n) => n,
            None => {
                return Err(IngestError::CorruptSnapshot);
            },
        };
        let ghost pos1 = pos;
        let mut store = GlyphData::new();
        proof {
            assert(store@.names + Seq::<Seq<char>>::empty() =~= store@.names);
        }
        let mut i: u64 = 0;
        while i < count
            invariant
                i <= count,
                pos <= bytes@.len(),
                spec_decode_u64(bytes@.skip(0)) == Some((count, bytes@.skip(pos1 as int))),
                (match spec_decode_entries((count - i) as nat, bytes@.skip(pos as int)) {
                    Some(((ns2, rs2), r2)) => spec_decode_entries(
                        count as nat,
                        bytes@.skip(pos1 as int),
                    ) == Some(((store@.names + ns2, store@.records + rs2), r2)),
                    None => spec_decode_entries(count as nat, bytes@.skip(pos1 as int)) is None,
                }),
            decreases count - i,
        {
            let ghost names_before = store@.names;
            let ghost records_before = store@.records;
            match read_entry(bytes, &mut pos) {
                Some((entry_name, entry_record)) => {
                    let ghost gn = entry_name@;
                    let ghost gr = entry_record@;
                    store.push_record(entry_name, entry_record);
                    proof {
                        if spec_decode_entries((count - i - 1) as nat, bytes@.skip(pos as int))
                            is Some {
                            let ((ns3, rs3), r3) = spec_decode_entries(
                                (count - i - 1) as nat,
                                bytes@.skip(pos as int),
                            )->0;
                            assert(names_before + (seq![gn] + ns3) =~= store@.names + ns3);
                            assert(records_before + (seq![gr] + rs3) =~= store@.records + rs3);
                        }
                    }
                },
                None => {
                    proof {
                        assert(bytes@.skip(0) =~= bytes@);
                    }
                    return Err(IngestError::CorruptSnapshot);
                },
            }
            i = i + 1;
        }
        proof {
            assert(store@.names + Seq::<Seq<char>>::empty() =~= store@.names);
            assert(store@.records + Seq::<RecordView>::empty() =~= store@.records);
        }
        if pos != bytes.len() {
            proof {
                assert(bytes@.skip(pos as int).len() > 0);
                assert(spec_decode_entries(0, bytes@.skip(pos as int)) == Some(
                    (
                        (Seq::<Seq<char>>::empty(), Seq::<RecordView>::empty()),
                        bytes@.skip(pos as int),
                    ),
                ));
                assert(spec_decode_entries(count as nat, bytes@.skip(pos1 as int)) == Some(
                    ((store@.names, store@.records), bytes@.skip(pos as int)),
                ));
                assert(spec_decode_snapshot(bytes@) is None);
            }
            return Err(IngestError::CorruptSnapshot);
        }
        proof {
            assert(bytes@.skip(pos as int).len() == 0);
        }
        // exporting the sequence states that the rebuilt store is
        // canonical, which the contract passes on to the caller
        let _exported = store.records();
        Ok(store)
    }
}

} // verus!
