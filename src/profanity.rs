//! Profanity checks on text, through `rustrict`'s analysis.
use vstd::prelude::*;

use crate::source::push_char;

verus! {

/// The lowercase form of a text, as `str::to_lowercase` gives it.
pub uninterp spec fn lower_of(s: Seq<char>) -> Seq<char>;

/// Relies on `str::to_lowercase`: the lowercase mapping, which depends on the text alone.
#[verifier::external_body]
fn lowercase(s: &str) -> (r: String)
    ensures
        r@ == lower_of(s@),
{
    s.to_lowercase()
}

/// The bits of the `rustrict::Type` that `rustrict`'s analysis, with its built-in word lists and
/// without ignoring false positives, gives for a text.
pub uninterp spec fn censor_bits(text: Seq<char>) -> u32;

/// Relies on `rustrict::Censor::new` with `with_ignore_false_positives(false)` and `analyze`,
/// read through `Type::bits`: the analysis depends on the characters alone.
#[verifier::external_body]
fn censor_analysis(text: &str) -> (r: u32)
    ensures
        r == censor_bits(text@),
{
    rustrict::Censor::new(text.chars()).with_ignore_false_positives(false).analyze().bits()
}

/// `rustrict::Type::PROFANE`, as bits.
pub const PROFANE: u32 = 0b111;

/// `rustrict::Type::SEXUAL`, as bits.
pub const SEXUAL: u32 = 0b111_000_000;

/// `rustrict::Type::EVASIVE`, as bits.
pub const EVASIVE: u32 = 0b111_000_000_000_000;

/// `rustrict::Type::MODERATE_OR_HIGHER`, as bits.
pub const MODERATE_OR_HIGHER: u32 = 0b110_110_110_110_110_110;

/// The analysis `bits` flags the text: profane or sexual without being evasive, or evasive
/// with at least moderate profanity.
pub open spec fn flagged(bits: u32) -> bool {
    ((bits & PROFANE) != 0 && (bits & EVASIVE) == 0) || ((bits & SEXUAL) != 0 && (bits & EVASIVE)
        == 0) || (bits & (PROFANE & MODERATE_OR_HIGHER & EVASIVE)) != 0
}

/// What one character becomes before analysis: dashes and newlines become spaces (so that
/// word boundaries are seen), regional indicator letters become their ASCII letters, and other
/// characters stay; asterisks (markdown emphasis) are dropped, giving `None`.
pub open spec fn censor_char(c: char) -> Option<char> {
    if c == '\n' || c == '-' {
        Some(' ')
    } else if c == '*' {
        None
    } else if 0x1F1E6 <= (c as u32) <= 0x1F1FF {
        Some((((c as u32) - 0x1F1E6 + 97) as u8) as char)
    } else {
        Some(c)
    }
}

/// The text that is analysed for `s`, already lowercased.
pub open spec fn censor_input(s: Seq<char>) -> Seq<char>
    decreases s.len(),
{
    if s.len() == 0 {
        Seq::empty()
    } else {
        let prev = censor_input(s.drop_last());
        match censor_char(s.last()) {
            Some(c) => prev.push(c),
            None => prev,
        }
    }
}

/// Whether a text is profane.
pub open spec fn is_profane(s: Seq<char>) -> bool {
    flagged(censor_bits(censor_input(lower_of(s))))
}

fn censor_char_of(c: char) -> (r: Option<char>)
    ensures
        r == censor_char(c),
{
    let code = c as u32;
    if c == '\n' || c == '-' {
        Some(' ')
    } else if c == '*' {
        None
    } else if 0x1F1E6 <= code && code <= 0x1F1FF {
        Some(((code - 0x1F1E6 + 97) as u8) as char)
    } else {
        Some(c)
    }
}

/// Whether a text is profane: it is lowercased, normalised character by character, and
/// analysed.
pub fn profane(s: &str) -> (r: bool)
    ensures
        r == is_profane(s@),
{
    let lower = lowercase(s);
    let n = lower.as_str().unicode_len();
    let mut input = String::new();
    let mut i: usize = 0;
    while i < n
        invariant
            n == lower@.len(),
            i <= n,
            input@ == censor_input(lower@.subrange(0, i as int)),
        decreases n - i,
    {
        let c = lower.as_str().get_char(i);
        assert(lower@.subrange(0, i + 1).drop_last() =~= lower@.subrange(0, i as int));
        match censor_char_of(c) {
            Some(d) => push_char(&mut input, d),
            None => {},
        }
        i = i + 1;
    }
    assert(lower@.subrange(0, n as int) =~= lower@);
    let bits = censor_analysis(input.as_str());
    ((bits & PROFANE) != 0 && (bits & EVASIVE) == 0) || ((bits & SEXUAL) != 0 && (bits & EVASIVE)
        == 0) || (bits & (PROFANE & MODERATE_OR_HIGHER & EVASIVE)) != 0
}

/// Something that can hold objectionable text.
pub trait Censorable {
    /// The objectionable text it holds, the first one where it holds several.
    spec fn objectionable(&self) -> Option<Seq<char>>;

    fn check_profanity(&self) -> (r: Option<&str>)
        ensures
            match r {
                Some(t) => self.objectionable() == Some(t@),
                None => self.objectionable() is None,
            },
    ;
}

impl Censorable for String {
    open spec fn objectionable(&self) -> Option<Seq<char>> {
        if is_profane(self@) {
            Some(self@)
        } else {
            None
        }
    }

    fn check_profanity(&self) -> (r: Option<&str>) {
        if profane(self.as_str()) {
            Some(self.as_str())
        } else {
            None
        }
    }
}

impl<'a> Censorable for &'a str {
    open spec fn objectionable(&self) -> Option<Seq<char>> {
        if is_profane((*self)@) {
            Some((*self)@)
        } else {
            None
        }
    }

    fn check_profanity(&self) -> (r: Option<&str>) {
        if profane(*self) {
            Some(*self)
        } else {
            None
        }
    }
}

impl<T: Censorable> Censorable for Option<T> {
    open spec fn objectionable(&self) -> Option<Seq<char>> {
        match self {
            Some(t) => t.objectionable(),
            None => None,
        }
    }

    fn check_profanity(&self) -> (r: Option<&str>) {
        match self {
            Some(t) => t.check_profanity(),
            None => None,
        }
    }
}

/// The objectionable text of the first element that holds one.
pub open spec fn first_objectionable<T: Censorable>(items: Seq<T>) -> Option<Seq<char>>
    decreases items.len(),
{
    if items.len() == 0 {
        None
    } else {
        match items[0].objectionable() {
            Some(t) => Some(t),
            None => first_objectionable(items.drop_first()),
        }
    }
}

proof fn lemma_first_objectionable_step<T: Censorable>(items: Seq<T>, i: int)
    requires
        0 <= i < items.len(),
        items[i].objectionable() is None,
    ensures
        first_objectionable(items.subrange(i, items.len() as int)) == first_objectionable(
            items.subrange(i + 1, items.len() as int),
        ),
{
    let s = items.subrange(i, items.len() as int);
    assert(s.drop_first() =~= items.subrange(i + 1, items.len() as int));
}

impl<T: Censorable> Censorable for Vec<T> {
    open spec fn objectionable(&self) -> Option<Seq<char>> {
        first_objectionable(self@)
    }

    fn check_profanity(&self) -> (r: Option<&str>) {
        let mut i: usize = 0;
        assert(self@.subrange(0, self@.len() as int) =~= self@);
        while i < self.len()
            invariant
                i <= self@.len(),
                first_objectionable(self@) == first_objectionable(
                    self@.subrange(i as int, self@.len() as int),
                ),
            decreases self@.len() - i,
        {
            match self[i].check_profanity() {
                Some(t) => {
                    assert(self@.subrange(i as int, self@.len() as int)[0] == self@[i as int]);
                    return Some(t);
                },
                None => {
                    proof {
                        lemma_first_objectionable_step(self@, i as int);
                    }
                },
            }
            i = i + 1;
        }
        None
    }
}

} // verus!
