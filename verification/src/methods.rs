//! The compression methods: their taxonomy, the Gorilla-style codec and the
//! precision bound.

use vstd::prelude::*;
use vstd::string::StringExecFns;

pub mod bits;
pub mod stream;
pub mod format;
pub mod int_encoder;
pub mod parse;
pub mod int_decoder;
pub mod roundtrip;
pub mod prec_double;

verus! {

/// Names a dictionary that a model-based method was trained into. The
/// dictionary itself is kept elsewhere.
pub type DictionaryId = u32;

/// Every compression method that a segment can be stored with, each with the
/// parameters needed to undo it. `Fourier` and `Pla` hold the raw bits of
/// their ratio, a double.
#[allow(non_camel_case_types)]
#[derive(Clone, Debug, PartialEq)]
pub enum Methods {
    Uncompr,
    Gorilla,
    Gzip,
    Snappy,
    Zlib,
    Sprintz(usize),
    Buff(usize),
    Kernel(DictionaryId),
    SparseLearning(DictionaryId),
    DeepLearning(String),
    Rrd_sample,
    Bufflossy(usize, usize),
    Paa(usize),
    Fourier(u64),
    Pla(u64),
}

/// Whether values stored with `m` come back exactly. The model-based methods
/// make no such promise, so they count as lossy.
pub open spec fn lossless(m: Methods) -> bool {
    match m {
        Methods::Uncompr => true,
        Methods::Gorilla => true,
        Methods::Gzip => true,
        Methods::Snappy => true,
        Methods::Zlib => true,
        Methods::Sprintz(_) => true,
        Methods::Buff(_) => true,
        Methods::Kernel(_) => false,
        Methods::SparseLearning(_) => false,
        Methods::DeepLearning(_) => false,
        Methods::Rrd_sample => false,
        Methods::Bufflossy(_, _) => false,
        Methods::Paa(_) => false,
        Methods::Fourier(_) => false,
        Methods::Pla(_) => false,
    }
}

/// Classifies a method as lossless or lossy.
#[allow(non_snake_case)]
pub fn IsLossless(m: &Methods) -> (r: bool)
    ensures
        r == lossless(*m),
{
    match m {
        Methods::Uncompr => true,
        Methods::Gorilla => true,
        Methods::Sprintz(_) => true,
        Methods::Gzip => true,
        Methods::Zlib => true,
        Methods::Snappy => true,
        Methods::Buff(_) => true,
        Methods::Rrd_sample => false,
        Methods::Bufflossy(_, _) => false,
        Methods::Paa(_) => false,
        Methods::Fourier(_) => false,
        Methods::Pla(_) => false,
        _ => false,
    }
}

/// The digit `d` as a character.
pub open spec fn digit(d: nat) -> char {
    if d == 0 {
        '0'
    } else if d == 1 {
        '1'
    } else if d == 2 {
        '2'
    } else if d == 3 {
        '3'
    } else if d == 4 {
        '4'
    } else if d == 5 {
        '5'
    } else if d == 6 {
        '6'
    } else if d == 7 {
        '7'
    } else if d == 8 {
        '8'
    } else {
        '9'
    }
}

/// The number `n` in decimal digits.
pub open spec fn decimal(n: nat) -> Seq<char>
    decreases n,
{
    if n < 10 {
        seq![digit(n)]
    } else {
        decimal(n / 10).push(digit(n % 10))
    }
}

/// What `Debug` prints for a string: the string in double quotes, with
/// escapes for what would not print as itself.
pub uninterp spec fn debug_text(s: Seq<char>) -> Seq<char>;

/// The description of a method. `rendered` is the text of the parameter of
/// a method whose parameter is not a whole number (a file name, a ratio).
pub open spec fn description(m: Methods, rendered: Seq<char>) -> Seq<char> {
    match m {
        Methods::Uncompr => "No compression applied"@,
        Methods::Gorilla => "Gorilla"@,
        Methods::Gzip => "Gzip"@,
        Methods::Snappy => "Snappy"@,
        Methods::Zlib => "Zlib"@,
        Methods::Sprintz(scale) => "Sprintz w/ scale "@ + decimal(scale as nat),
        Methods::Buff(scale) => "BUFF w/ scale "@ + decimal(scale as nat),
        Methods::Kernel(id) => "Kernel w/ DictionaryId "@ + decimal(id as nat),
        Methods::SparseLearning(id) => "Sparse Learning w/ DictionaryId "@ + decimal(id as nat),
        Methods::DeepLearning(_) => "Deep Learning w/ file "@ + rendered,
        Methods::Rrd_sample => "Round robin data management"@,
        Methods::Bufflossy(scale, bits) => "BUFF w/ scale "@ + decimal(scale as nat) + ", bits "@
            + decimal(bits as nat),
        Methods::Paa(window) => "Paa w/ window size "@ + decimal(window as nat),
        Methods::Fourier(_) => "Fourier w/ ratio "@ + rendered,
        Methods::Pla(_) => "PLA lttb w/ ratio "@ + rendered,
    }
}

/// `Debug` for `str`, through `format!`: the text that it prints for `s`.
#[verifier::external_body]
fn debug_of(s: &str) -> (text: String)
    ensures
        text@ == debug_text(s@),
{
    format!("{:?}", s)
}

fn digit_text(d: usize) -> (text: &'static str)
    requires
        d < 10,
    ensures
        text@ == seq![digit(d as nat)],
{
    proof {
        reveal_strlit("0");
        reveal_strlit("1");
        reveal_strlit("2");
        reveal_strlit("3");
        reveal_strlit("4");
        reveal_strlit("5");
        reveal_strlit("6");
        reveal_strlit("7");
        reveal_strlit("8");
        reveal_strlit("9");
    }
    let text = if d == 0 {
        "0"
    } else if d == 1 {
        "1"
    } else if d == 2 {
        "2"
    } else if d == 3 {
        "3"
    } else if d == 4 {
        "4"
    } else if d == 5 {
        "5"
    } else if d == 6 {
        "6"
    } else if d == 7 {
        "7"
    } else if d == 8 {
        "8"
    } else {
        "9"
    };
    assert(text@ =~= seq![digit(d as nat)]);
    text
}

/// Appends `n` in decimal digits to `text`.
fn append_decimal(text: &mut String, n: usize)
    ensures
        final(text)@ == old(text)@ + decimal(n as nat),
    decreases n,
{
    if n < 10 {
        text.append(digit_text(n));
    } else {
        append_decimal(text, n / 10);
        text.append(digit_text(n % 10));
        assert(text@ =~= old(text)@ + decimal(n as nat));
    }
}

/// Describes a method whose parameter, where it is a file name or a ratio,
/// is already rendered as `rendered`.
pub fn describe_with(m: &Methods, rendered: &str) -> (text: String)
    ensures
        text@ == description(*m, rendered@),
{
    match m {
        Methods::Uncompr => String::from_str("No compression applied"),
        Methods::Gorilla => String::from_str("Gorilla"),
        Methods::Gzip => String::from_str("Gzip"),
        Methods::Snappy => String::from_str("Snappy"),
        Methods::Zlib => String::from_str("Zlib"),
        Methods::Sprintz(scale) => {
            let mut text = String::from_str("Sprintz w/ scale ");
            append_decimal(&mut text, *scale);
            text
        },
        Methods::Buff(scale) => {
            let mut text = String::from_str("BUFF w/ scale ");
            append_decimal(&mut text, *scale);
            text
        },
        Methods::Kernel(id) => {
            let mut text = String::from_str("Kernel w/ DictionaryId ");
            append_decimal(&mut text, *id as usize);
            text
        },
        Methods::SparseLearning(id) => {
            let mut text = String::from_str("Sparse Learning w/ DictionaryId ");
            append_decimal(&mut text, *id as usize);
            text
        },
        Methods::DeepLearning(_) => {
            let mut text = String::from_str("Deep Learning w/ file ");
            text.append(rendered);
            text
        },
        Methods::Rrd_sample => String::from_str("Round robin data management"),
        Methods::Bufflossy(scale, bits) => {
            let mut text = String::from_str("BUFF w/ scale ");
            append_decimal(&mut text, *scale);
            text.append(", bits ");
            append_decimal(&mut text, *bits);
            text
        },
        Methods::Paa(window) => {
            let mut text = String::from_str("Paa w/ window size ");
            append_decimal(&mut text, *window);
            text
        },
        Methods::Fourier(_) => {
            let mut text = String::from_str("Fourier w/ ratio ");
            text.append(rendered);
            text
        },
        Methods::Pla(_) => {
            let mut text = String::from_str("PLA lttb w/ ratio ");
            text.append(rendered);
            text
        },
    }
}

/// Describes a method. A file name is shown as `Debug` prints it; `ratio` is
/// the text of the ratio of a method that has one, and is not looked at for
/// the others.
pub fn describe(m: &Methods, ratio: &str) -> (text: String)
    ensures
        text@ == description(
            *m,
            match *m {
                Methods::DeepLearning(file) => debug_text(file@),
                _ => ratio@,
            },
        ),
{
    match m {
        Methods::DeepLearning(file) => {
            let quoted = debug_of(file.as_str());
            describe_with(m, quoted.as_str())
        },
        _ => describe_with(m, ratio),
    }
}

/// A method was asked for what it cannot do.
#[derive(Clone, Copy, Debug, PartialEq, Eq)]
pub struct MethodUsageError {
    pub err_msg: &'static str,
    pub err_num: u8,
}

/// A method is named but cannot be run in this build.
#[derive(Clone, Copy, Debug, PartialEq, Eq)]
pub struct MethodImplementError {
    pub err_msg: &'static str,
    pub err_num: u8,
}

} // verus!
