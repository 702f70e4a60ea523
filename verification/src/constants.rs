//! The built-in alphabets.
use vstd::prelude::*;

verus! {

/// Latin letters of both cases and the decimal digits.
pub const ALPHANUMERIC: &'static str =
    "ABCDEFGHIJKLMNOPQRSTUVWXYZabcdefghijklmnopqrstuvwxyz0123456789";

/// Lower-case Latin letters and the decimal digits.
pub const ALPHANUMERIC_LOWER: &'static str = "abcdefghijklmnopqrstuvwxyz0123456789";

/// Upper-case Latin letters and the decimal digits.
pub const ALPHANUMERIC_UPPER: &'static str = "ABCDEFGHIJKLMNOPQRSTUVWXYZ0123456789";

/// Latin letters of both cases.
pub const ALPHABETICAL: &'static str = "ABCDEFGHIJKLMNOPQRSTUVWXYZabcdefghijklmnopqrstuvwxyz";

/// Upper-case Latin letters.
pub const ALPHABETICAL_UPPER: &'static str = "ABCDEFGHIJKLMNOPQRSTUVWXYZ";

/// Lower-case Latin letters.
pub const ALPHABETICAL_LOWER: &'static str = "abcdefghijklmnopqrstuvwxyz";

/// The decimal digits.
pub const NUMERICAL: &'static str = "0123456789";

/// Printable characters whose UTF-8 encodings take one, two, three and four
/// bytes: ASCII letters, digits and punctuation, accented Latin, Greek and
/// Cyrillic letters, symbols, kana, and pictographs.
pub const UTF8: &'static str =
    "ABCDEFGHIJKLMNOPQRSTUVWXYZabcdefghijklmnopqrstuvwxyz0123456789!#$%&()*+,-./:;<=>?@[]^_{|}~\u{e0}\u{e9}\u{ee}\u{f5}\u{fc}\u{f1}\u{e7}\u{df}\u{f8}\u{e5}\u{c6}\u{d0}\u{3b1}\u{3b2}\u{3b3}\u{3b4}\u{3bb}\u{3c0}\u{3c3}\u{3a9}\u{416}\u{414}\u{42f}\u{431}\u{436}\u{44e}\u{20ac}\u{2122}\u{2190}\u{2192}\u{221e}\u{2248}\u{2260}\u{2605}\u{2665}\u{2699}\u{2764}\u{3042}\u{30ab}\u{4e2d}\u{6587}\u{1f600}\u{1f680}\u{1f40d}\u{1f3b2}\u{1d11e}";

} // verus!
