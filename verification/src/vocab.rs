//! The vocabulary model: closed enumerations for the classification axes,
//! each with a fallible conversion from its fixed set of accepted source
//! spellings. Unknown spellings are refused, never defaulted; historical
//! variant spellings map onto the same canonical variant.

use vstd::prelude::*;

use crate::text::str_eq;

verus! {

/// The mandatory coarse classification of a glyph.
#[derive(Clone, Copy, Debug, PartialEq, Eq)]
#[non_exhaustive]
pub enum Category {
    Letter,
    Mark,
    Number,
    Other,
    Punctuation,
    Separator,
    Symbol,
}

impl Category {
    /// The variant a source spelling denotes, or `None` for an unknown one.
    pub open spec fn spec_parse(s: Seq<char>) -> Option<Category> {
        if s == "Letter"@ {
            Some(Category::Letter)
        } else if s == "Mark"@ {
            Some(Category::Mark)
        } else if s == "Number"@ {
            Some(Category::Number)
        } else if s == "Other"@ {
            Some(Category::Other)
        } else if s == "Punctuation"@ {
            Some(Category::Punctuation)
        } else if s == "Separator"@ {
            Some(Category::Separator)
        } else if s == "Symbol"@ {
            Some(Category::Symbol)
        } else {
            None
        }
    }

    /// Fallible conversion from a source spelling.
    pub fn parse(s: &str) -> (r: Option<Category>)
        ensures
            r == Self::spec_parse(s@),
    {
        if str_eq(s, "Letter") {
            Some(Category::Letter)
        } else if str_eq(s, "Mark") {
            Some(Category::Mark)
        } else if str_eq(s, "Number") {
            Some(Category::Number)
        } else if str_eq(s, "Other") {
            Some(Category::Other)
        } else if str_eq(s, "Punctuation") {
            Some(Category::Punctuation)
        } else if str_eq(s, "Separator") {
            Some(Category::Separator)
        } else if str_eq(s, "Symbol") {
            Some(Category::Symbol)
        } else {
            None
        }
    }
}

/// An optional refinement of the category; no cross-field consistency is enforced.
#[derive(Clone, Copy, Debug, PartialEq, Eq)]
#[non_exhaustive]
pub enum SubCategory {
    Arrow,
    Compatibility,
    Currency,
    Dash,
    DecimalDigit,
    Emoji,
    Enclosing,
    Format,
    Fraction,
    Geometry,
    Halfform,
    Jamo,
    Letter,
    Ligature,
    Math,
    Matra,
    Modifier,
    Nonspacing,
    Number,
    Parenthesis,
    Quote,
    Radical,
    Small,
    Space,
    Spacing,
    SpacingCombining,
    Superscript,
    Syllable,
}

impl SubCategory {
    /// The variant a source spelling denotes, or `None` for an unknown one.
    pub open spec fn spec_parse(s: Seq<char>) -> Option<SubCategory> {
        if s == "Arrow"@ {
            Some(SubCategory::Arrow)
        } else if s == "Compatibility"@ {
            Some(SubCategory::Compatibility)
        } else if s == "Currency"@ {
            Some(SubCategory::Currency)
        } else if s == "Dash"@ {
            Some(SubCategory::Dash)
        } else if s == "Decimal Digit"@ {
            Some(SubCategory::DecimalDigit)
        } else if s == "Decimal digit"@ {
            Some(SubCategory::DecimalDigit)
        } else if s == "Emoji"@ {
            Some(SubCategory::Emoji)
        } else if s == "Enclosing"@ {
            Some(SubCategory::Enclosing)
        } else if s == "Format"@ {
            Some(SubCategory::Format)
        } else if s == "Fraction"@ {
            Some(SubCategory::Fraction)
        } else if s == "Geometry"@ {
            Some(SubCategory::Geometry)
        } else if s == "Halfform"@ {
            Some(SubCategory::Halfform)
        } else if s == "Jamo"@ {
            Some(SubCategory::Jamo)
        } else if s == "Letter"@ {
            Some(SubCategory::Letter)
        } else if s == "Ligature"@ {
            Some(SubCategory::Ligature)
        } else if s == "Math"@ {
            Some(SubCategory::Math)
        } else if s == "Matra"@ {
            Some(SubCategory::Matra)
        } else if s == "Modifier"@ {
            Some(SubCategory::Modifier)
        } else if s == "Nonspacing"@ {
            Some(SubCategory::Nonspacing)
        } else if s == "Number"@ {
            Some(SubCategory::Number)
        } else if s == "Parenthesis"@ {
            Some(SubCategory::Parenthesis)
        } else if s == "Quote"@ {
            Some(SubCategory::Quote)
        } else if s == "Radical"@ {
            Some(SubCategory::Radical)
        } else if s == "Small"@ {
            Some(SubCategory::Small)
        } else if s == "Space"@ {
            Some(SubCategory::Space)
        } else if s == "Spacing"@ {
            Some(SubCategory::Spacing)
        } else if s == "Spacing Combining"@ {
            Some(SubCategory::SpacingCombining)
        } else if s == "Superscript"@ {
            Some(SubCategory::Superscript)
        } else if s == "Syllable"@ {
            Some(SubCategory::Syllable)
        } else {
            None
        }
    }

    /// Fallible conversion from a source spelling.
    pub fn parse(s: &str) -> (r: Option<SubCategory>)
        ensures
            r == Self::spec_parse(s@),
    {
        if str_eq(s, "Arrow") {
            Some(SubCategory::Arrow)
        } else if str_eq(s, "Compatibility") {
            Some(SubCategory::Compatibility)
        } else if str_eq(s, "Currency") {
            Some(SubCategory::Currency)
        } else if str_eq(s, "Dash") {
            Some(SubCategory::Dash)
        } else if str_eq(s, "Decimal Digit") {
            Some(SubCategory::DecimalDigit)
        } else if str_eq(s, "Decimal digit") {
            Some(SubCategory::DecimalDigit)
        } else if str_eq(s, "Emoji") {
            Some(SubCategory::Emoji)
        } else if str_eq(s, "Enclosing") {
            Some(SubCategory::Enclosing)
        } else if str_eq(s, "Format") {
            Some(SubCategory::Format)
        } else if str_eq(s, "Fraction") {
            Some(SubCategory::Fraction)
        } else if str_eq(s, "Geometry") {
            Some(SubCategory::Geometry)
        } else if str_eq(s, "Halfform") {
            Some(SubCategory::Halfform)
        } else if str_eq(s, "Jamo") {
            Some(SubCategory::Jamo)
        } else if str_eq(s, "Letter") {
            Some(SubCategory::Letter)
        } else if str_eq(s, "Ligature") {
            Some(SubCategory::Ligature)
        } else if str_eq(s, "Math") {
            Some(SubCategory::Math)
        } else if str_eq(s, "Matra") {
            Some(SubCategory::Matra)
        } else if str_eq(s, "Modifier") {
            Some(SubCategory::Modifier)
        } else if str_eq(s, "Nonspacing") {
            Some(SubCategory::Nonspacing)
        } else if str_eq(s, "Number") {
            Some(SubCategory::Number)
        } else if str_eq(s, "Parenthesis") {
            Some(SubCategory::Parenthesis)
        } else if str_eq(s, "Quote") {
            Some(SubCategory::Quote)
        } else if str_eq(s, "Radical") {
            Some(SubCategory::Radical)
        } else if str_eq(s, "Small") {
            Some(SubCategory::Small)
        } else if str_eq(s, "Space") {
            Some(SubCategory::Space)
        } else if str_eq(s, "Spacing") {
            Some(SubCategory::Spacing)
        } else if str_eq(s, "Spacing Combining") {
            Some(SubCategory::SpacingCombining)
        } else if str_eq(s, "Superscript") {
            Some(SubCategory::Superscript)
        } else if str_eq(s, "Syllable") {
            Some(SubCategory::Syllable)
        } else {
            None
        }
    }
}

/// An optional letter case.
#[derive(Clone, Copy, Debug, PartialEq, Eq)]
#[non_exhaustive]
pub enum Case {
    Lower,
    Minor,
    SmallCaps,
    Upper,
}

impl Case {
    /// The variant a source spelling denotes, or `None` for an unknown one.
    pub open spec fn spec_parse(s: Seq<char>) -> Option<Case> {
        if s == "lower"@ {
            Some(Case::Lower)
        } else if s == "minor"@ {
            Some(Case::Minor)
        } else if s == "smallCaps"@ {
            Some(Case::SmallCaps)
        } else if s == "upper"@ {
            Some(Case::Upper)
        } else {
            None
        }
    }

    /// Fallible conversion from a source spelling.
    pub fn parse(s: &str) -> (r: Option<Case>)
        ensures
            r == Self::spec_parse(s@),
    {
        if str_eq(s, "lower") {
            Some(Case::Lower)
        } else if str_eq(s, "minor") {
            Some(Case::Minor)
        } else if str_eq(s, "smallCaps") {
            Some(Case::SmallCaps)
        } else if str_eq(s, "upper") {
            Some(Case::Upper)
        } else {
            None
        }
    }
}

/// An optional writing system.
#[derive(Clone, Copy, Debug, PartialEq, Eq)]
#[non_exhaustive]
pub enum Script {
    Adlam,
    Alchemical,
    Arabic,
    Armenian,
    Avestan,
    Balinese,
    Bamum,
    Batak,
    Bengali,
    BlackLetter,
    Bopomofo,
    Braille,
    Buginese,
    Canadian,
    Chakma,
    Cham,
    Cherokee,
    Chorasmian,
    Cyrillic,
    Dentistry,
    Deseret,
    Devanagari,
    Divesakuru,
    Elbasan,
    Elymaic,
    Ethiopic,
    Georgian,
    Glagolitic,
    Gothic,
    Greek,
    Gujarati,
    Gurmukhi,
    Han,
    Hangul,
    Hebrew,
    Javanese,
    Kana,
    Kannada,
    Kayahli,
    Khmer,
    Khojki,
    Lao,
    Latin,
    Lepcha,
    Lue,
    Mahjong,
    Malayalam,
    Mandaic,
    Math,
    Mongolian,
    Musical,
    Myanmar,
    Nko,
    NyiakengPuachueHmong,
    Oriya,
    Osage,
    Osmanya,
    PahawhHmong,
    PhaistosDisc,
    Rovas,
    Runic,
    Samaritan,
    Shavian,
    Sinhala,
    Syriac,
    Tamil,
    Telugu,
    Thaana,
    Thai,
    Tham,
    Tibet,
    Tifinagh,
    Yi,
}

impl Script {
    /// The variant a source spelling denotes, or `None` for an unknown one.
    pub open spec fn spec_parse(s: Seq<char>) -> Option<Script> {
        if s == "adlam"@ {
            Some(Script::Adlam)
        } else if s == "alchemical"@ {
            Some(Script::Alchemical)
        } else if s == "arabic"@ {
            Some(Script::Arabic)
        } else if s == "armenian"@ {
            Some(Script::Armenian)
        } else if s == "avestan"@ {
            Some(Script::Avestan)
        } else if s == "balinese"@ {
            Some(Script::Balinese)
        } else if s == "bamum"@ {
            Some(Script::Bamum)
        } else if s == "batak"@ {
            Some(Script::Batak)
        } else if s == "bengali"@ {
            Some(Script::Bengali)
        } else if s == "Black Letter"@ {
            Some(Script::BlackLetter)
        } else if s == "bopomofo"@ {
            Some(Script::Bopomofo)
        } else if s == "braille"@ {
            Some(Script::Braille)
        } else if s == "buginese"@ {
            Some(Script::Buginese)
        } else if s == "canadian"@ {
            Some(Script::Canadian)
        } else if s == "chakma"@ {
            Some(Script::Chakma)
        } else if s == "cham"@ {
            Some(Script::Cham)
        } else if s == "cherokee"@ {
            Some(Script::Cherokee)
        } else if s == "chorasmian"@ {
            Some(Script::Chorasmian)
        } else if s == "cyrillic"@ {
            Some(Script::Cyrillic)
        } else if s == "dentistry"@ {
            Some(Script::Dentistry)
        } else if s == "deseret"@ {
            Some(Script::Deseret)
        } else if s == "devanagari"@ {
            Some(Script::Devanagari)
        } else if s == "divesakuru"@ {
            Some(Script::Divesakuru)
        } else if s == "elbasan"@ {
            Some(Script::Elbasan)
        } else if s == "elymaic"@ {
            Some(Script::Elymaic)
        } else if s == "ethiopic"@ {
            Some(Script::Ethiopic)
        } else if s == "georgian"@ {
            Some(Script::Georgian)
        } else if s == "glagolitic"@ {
            Some(Script::Glagolitic)
        } else if s == "gothic"@ {
            Some(Script::Gothic)
        } else if s == "greek"@ {
            Some(Script::Greek)
        } else if s == "gujarati"@ {
            Some(Script::Gujarati)
        } else if s == "gurmukhi"@ {
            Some(Script::Gurmukhi)
        } else if s == "han"@ {
            Some(Script::Han)
        } else if s == "hangul"@ {
            Some(Script::Hangul)
        } else if s == "hebrew"@ {
            Some(Script::Hebrew)
        } else if s == "javanese"@ {
            Some(Script::Javanese)
        } else if s == "kana"@ {
            Some(Script::Kana)
        } else if s == "kannada"@ {
            Some(Script::Kannada)
        } else if s == "kayahli"@ {
            Some(Script::Kayahli)
        } else if s == "khmer"@ {
            Some(Script::Khmer)
        } else if s == "khojki"@ {
            Some(Script::Khojki)
        } else if s == "lao"@ {
            Some(Script::Lao)
        } else if s == "latin"@ {
            Some(Script::Latin)
        } else if s == "lepcha"@ {
            Some(Script::Lepcha)
        } else if s == "lue"@ {
            Some(Script::Lue)
        } else if s == "mahjong"@ {
            Some(Script::Mahjong)
        } else if s == "malayalam"@ {
            Some(Script::Malayalam)
        } else if s == "mandaic"@ {
            Some(Script::Mandaic)
        } else if s == "math"@ {
            Some(Script::Math)
        } else if s == "mongolian"@ {
            Some(Script::Mongolian)
        } else if s == "musical"@ {
            Some(Script::Musical)
        } else if s == "myanmar"@ {
            Some(Script::Myanmar)
        } else if s == "nko"@ {
            Some(Script::Nko)
        } else if s == "nyiakeng puachue hmong"@ {
            Some(Script::NyiakengPuachueHmong)
        } else if s == "oriya"@ {
            Some(Script::Oriya)
        } else if s == "osage"@ {
            Some(Script::Osage)
        } else if s == "osmanya"@ {
            Some(Script::Osmanya)
        } else if s == "pahawh hmong"@ {
            Some(Script::PahawhHmong)
        } else if s == "phaistosDisc"@ {
            Some(Script::PhaistosDisc)
        } else if s == "rovas"@ {
            Some(Script::Rovas)
        } else if s == "runic"@ {
            Some(Script::Runic)
        } else if s == "samaritan"@ {
            Some(Script::Samaritan)
        } else if s == "shavian"@ {
            Some(Script::Shavian)
        } else if s == "sinhala"@ {
            Some(Script::Sinhala)
        } else if s == "syriac"@ {
            Some(Script::Syriac)
        } else if s == "tamil"@ {
            Some(Script::Tamil)
        } else if s == "telugu"@ {
            Some(Script::Telugu)
        } else if s == "thaana"@ {
            Some(Script::Thaana)
        } else if s == "thai"@ {
            Some(Script::Thai)
        } else if s == "tham"@ {
            Some(Script::Tham)
        } else if s == "tibet"@ {
            Some(Script::Tibet)
        } else if s == "tifinagh"@ {
            Some(Script::Tifinagh)
        } else if s == "yi"@ {
            Some(Script::Yi)
        } else {
            None
        }
    }

    /// Fallible conversion from a source spelling.
    pub fn parse(s: &str) -> (r: Option<Script>)
        ensures
            r == Self::spec_parse(s@),
    {
        if str_eq(s, "adlam") {
            Some(Script::Adlam)
        } else if str_eq(s, "alchemical") {
            Some(Script::Alchemical)
        } else if str_eq(s, "arabic") {
            Some(Script::Arabic)
        } else if str_eq(s, "armenian") {
            Some(Script::Armenian)
        } else if str_eq(s, "avestan") {
            Some(Script::Avestan)
        } else if str_eq(s, "balinese") {
            Some(Script::Balinese)
        } else if str_eq(s, "bamum") {
            Some(Script::Bamum)
        } else if str_eq(s, "batak") {
            Some(Script::Batak)
        } else if str_eq(s, "bengali") {
            Some(Script::Bengali)
        } else if str_eq(s, "Black Letter") {
            Some(Script::BlackLetter)
        } else if str_eq(s, "bopomofo") {
            Some(Script::Bopomofo)
        } else if str_eq(s, "braille") {
            Some(Script::Braille)
        } else if str_eq(s, "buginese") {
            Some(Script::Buginese)
        } else if str_eq(s, "canadian") {
            Some(Script::Canadian)
        } else if str_eq(s, "chakma") {
            Some(Script::Chakma)
        } else if str_eq(s, "cham") {
            Some(Script::Cham)
        } else if str_eq(s, "cherokee") {
            Some(Script::Cherokee)
        } else if str_eq(s, "chorasmian") {
            Some(Script::Chorasmian)
        } else if str_eq(s, "cyrillic") {
            Some(Script::Cyrillic)
        } else if str_eq(s, "dentistry") {
            Some(Script::Dentistry)
        } else if str_eq(s, "deseret") {
            Some(Script::Deseret)
        } else if str_eq(s, "devanagari") {
            Some(Script::Devanagari)
        } else if str_eq(s, "divesakuru") {
            Some(Script::Divesakuru)
        } else if str_eq(s, "elbasan") {
            Some(Script::Elbasan)
        } else if str_eq(s, "elymaic") {
            Some(Script::Elymaic)
        } else if str_eq(s, "ethiopic") {
            Some(Script::Ethiopic)
        } else if str_eq(s, "georgian") {
            Some(Script::Georgian)
        } else if str_eq(s, "glagolitic") {
            Some(Script::Glagolitic)
        } else if str_eq(s, "gothic") {
            Some(Script::Gothic)
        } else if str_eq(s, "greek") {
            Some(Script::Greek)
        } else if str_eq(s, "gujarati") {
            Some(Script::Gujarati)
        } else if str_eq(s, "gurmukhi") {
            Some(Script::Gurmukhi)
        } else if str_eq(s, "han") {
            Some(Script::Han)
        } else if str_eq(s, "hangul") {
            Some(Script::Hangul)
        } else if str_eq(s, "hebrew") {
            Some(Script::Hebrew)
        } else if str_eq(s, "javanese") {
            Some(Script::Javanese)
        } else if str_eq(s, "kana") {
            Some(Script::Kana)
        } else if str_eq(s, "kannada") {
            Some(Script::Kannada)
        } else if str_eq(s, "kayahli") {
            Some(Script::Kayahli)
        } else if str_eq(s, "khmer") {
            Some(Script::Khmer)
        } else if str_eq(s, "khojki") {
            Some(Script::Khojki)
        } else if str_eq(s, "lao") {
            Some(Script::Lao)
        } else if str_eq(s, "latin") {
            Some(Script::Latin)
        } else if str_eq(s, "lepcha") {
            Some(Script::Lepcha)
        } else if str_eq(s, "lue") {
            Some(Script::Lue)
        } else if str_eq(s, "mahjong") {
            Some(Script::Mahjong)
        } else if str_eq(s, "malayalam") {
            Some(Script::Malayalam)
        } else if str_eq(s, "mandaic") {
            Some(Script::Mandaic)
        } else if str_eq(s, "math") {
            Some(Script::Math)
        } else if str_eq(s, "mongolian") {
            Some(Script::Mongolian)
        } else if str_eq(s, "musical") {
            Some(Script::Musical)
        } else if str_eq(s, "myanmar") {
            Some(Script::Myanmar)
        } else if str_eq(s, "nko") {
            Some(Script::Nko)
        } else if str_eq(s, "nyiakeng puachue hmong") {
            Some(Script::NyiakengPuachueHmong)
        } else if str_eq(s, "oriya") {
            Some(Script::Oriya)
        } else if str_eq(s, "osage") {
            Some(Script::Osage)
        } else if str_eq(s, "osmanya") {
            Some(Script::Osmanya)
        } else if str_eq(s, "pahawh hmong") {
            Some(Script::PahawhHmong)
        } else if str_eq(s, "phaistosDisc") {
            Some(Script::PhaistosDisc)
        } else if str_eq(s, "rovas") {
            Some(Script::Rovas)
        } else if str_eq(s, "runic") {
            Some(Script::Runic)
        } else if str_eq(s, "samaritan") {
            Some(Script::Samaritan)
        } else if str_eq(s, "shavian") {
            Some(Script::Shavian)
        } else if str_eq(s, "sinhala") {
            Some(Script::Sinhala)
        } else if str_eq(s, "syriac") {
            Some(Script::Syriac)
        } else if str_eq(s, "tamil") {
            Some(Script::Tamil)
        } else if str_eq(s, "telugu") {
            Some(Script::Telugu)
        } else if str_eq(s, "thaana") {
            Some(Script::Thaana)
        } else if str_eq(s, "thai") {
            Some(Script::Thai)
        } else if str_eq(s, "tham") {
            Some(Script::Tham)
        } else if str_eq(s, "tibet") {
            Some(Script::Tibet)
        } else if str_eq(s, "tifinagh") {
            Some(Script::Tifinagh)
        } else if str_eq(s, "yi") {
            Some(Script::Yi)
        } else {
            None
        }
    }
}

/// An optional writing direction.
#[derive(Clone, Copy, Debug, PartialEq, Eq)]
#[non_exhaustive]
pub enum Direction {
    LeftToRight,
    RightToLeft,
}

impl Direction {
    /// The variant a source spelling denotes, or `None` for an unknown one.
    pub open spec fn spec_parse(s: Seq<char>) -> Option<Direction> {
        if s == "LTR"@ {
            Some(Direction::LeftToRight)
        } else if s == "RTL"@ {
            Some(Direction::RightToLeft)
        } else {
            None
        }
    }

    /// Fallible conversion from a source spelling.
    pub fn parse(s: &str) -> (r: Option<Direction>)
        ensures
            r == Self::spec_parse(s@),
    {
        if str_eq(s, "LTR") {
            Some(Direction::LeftToRight)
        } else if str_eq(s, "RTL") {
            Some(Direction::RightToLeft)
        } else {
            None
        }
    }
}

} // verus!
