//! The names a user may give on the command line for separator, quote,
//! escape, comment, and terminator characters: the first thirty-two control
//! characters by their usual abbreviations, convenience names for the
//! symbols, or any single ASCII character spelled directly.

use vstd::prelude::*;
use vstd::string::StrSliceExecFns;

verus! {

/// The name is not a known abbreviation and not a single ASCII character.
#[derive(Copy, Clone, Debug, PartialEq, Eq, Structural)]
pub struct DelimiterError;

impl DelimiterError {
    /// What went wrong, for the user.
    pub fn message(&self) -> (r: &'static str)
        ensures
            r@ == "The delimiter must be a single ASCII character or an accepted special symbol."@,
    {
        "The delimiter must be a single ASCII character or an accepted special symbol."
    }
}

/// A record terminator: the permissive carriage-return/line-feed rule, or
/// one fixed byte.
#[derive(Copy, Clone, Debug, PartialEq, Eq, Structural)]
pub enum RecordTerminator {
    Crlf,
    Byte(u8),
}

/// What leading and trailing whitespace is trimmed from.
#[derive(Copy, Clone, Debug, PartialEq, Eq, Structural)]
pub enum TrimPolicy {
    NoTrim,
    Headers,
    Fields,
    All,
}

/// The byte a delimiter name stands for, or `None` for an unknown name.
pub open spec fn delimiter_spec(s: Seq<char>) -> Option<u8> {
    if s == "nul"@ {
        Some(0u8)
    } else if s == "soh"@ {
        Some(1u8)
    } else if s == "stx"@ {
        Some(2u8)
    } else if s == "etx"@ {
        Some(3u8)
    } else if s == "eot"@ {
        Some(4u8)
    } else if s == "enq"@ {
        Some(5u8)
    } else if s == "ack"@ {
        Some(6u8)
    } else if s == "bel"@ {
        Some(7u8)
    } else if s == "bs"@ {
        Some(8u8)
    } else if s == "ht"@ {
        Some(9u8)
    } else if s == "lf"@ {
        Some(10u8)
    } else if s == "vt"@ {
        Some(11u8)
    } else if s == "ff"@ {
        Some(12u8)
    } else if s == "cr"@ {
        Some(13u8)
    } else if s == "so"@ {
        Some(14u8)
    } else if s == "si"@ {
        Some(15u8)
    } else if s == "dle"@ {
        Some(16u8)
    } else if s == "dc1"@ {
        Some(17u8)
    } else if s == "dc2"@ {
        Some(18u8)
    } else if s == "dc3"@ {
        Some(19u8)
    } else if s == "dc4"@ {
        Some(20u8)
    } else if s == "nak"@ {
        Some(21u8)
    } else if s == "syn"@ {
        Some(22u8)
    } else if s == "etb"@ {
        Some(23u8)
    } else if s == "can"@ {
        Some(24u8)
    } else if s == "em"@ {
        Some(25u8)
    } else if s == "sub"@ {
        Some(26u8)
    } else if s == "esc"@ {
        Some(27u8)
    } else if s == "fs"@ {
        Some(28u8)
    } else if s == "gs"@ {
        Some(29u8)
    } else if s == "rs"@ {
        Some(30u8)
    } else if s == "us"@ {
        Some(31u8)
    } else if s == "sp"@ {
        Some(32u8)
    } else if s == "exc"@ {
        Some(33u8)
    } else if s == "quo"@ {
        Some(34u8)
    } else if s == "hsh"@ {
        Some(35u8)
    } else if s == "dol"@ {
        Some(36u8)
    } else if s == "pct"@ {
        Some(37u8)
    } else if s == "amp"@ {
        Some(38u8)
    } else if s == "squ"@ {
        Some(39u8)
    } else if s == "lpr"@ {
        Some(40u8)
    } else if s == "rpr"@ {
        Some(41u8)
    } else if s == "ast"@ {
        Some(42u8)
    } else if s == "plu"@ {
        Some(43u8)
    } else if s == "com"@ {
        Some(44u8)
    } else if s == "hyp"@ {
        Some(45u8)
    } else if s == "dot"@ {
        Some(46u8)
    } else if s == "sl"@ {
        Some(47u8)
    } else if s == "col"@ {
        Some(58u8)
    } else if s == "sem"@ {
        Some(59u8)
    } else if s == "lt"@ {
        Some(60u8)
    } else if s == "eq"@ {
        Some(61u8)
    } else if s == "gt"@ {
        Some(62u8)
    } else if s == "que"@ {
        Some(63u8)
    } else if s == "at"@ {
        Some(64u8)
    } else if s == "lbr"@ {
        Some(91u8)
    } else if s == "bsl"@ {
        Some(92u8)
    } else if s == "rbr"@ {
        Some(93u8)
    } else if s == "car"@ {
        Some(94u8)
    } else if s == "und"@ {
        Some(95u8)
    } else if s == "tic"@ {
        Some(96u8)
    } else if s == "lbc"@ {
        Some(123u8)
    } else if s == "pip"@ {
        Some(124u8)
    } else if s == "rbc"@ {
        Some(125u8)
    } else if s == "til"@ {
        Some(126u8)
    } else if s == "del"@ {
        Some(127u8)
    } else if s.len() == 1 && (s[0] as u32) <= 127 {
        Some((s[0] as u32) as u8)
    } else {
        None
    }
}

/// Exec mirror of `str_eq`: whether two string slices spell the same text.
fn str_eq(a: &str, b: &str) -> (r: bool)
    ensures
        r == (a@ == b@),
{
    let n = b.unicode_len();
    if a.unicode_len() != n {
        return false;
    }
    let mut i: usize = 0;
    while i < n
        invariant
            i <= n,
            n == b@.len(),
            a@.len() == n,
            forall|m: int| 0 <= m < i ==> a@[m] == b@[m],
        decreases n - i,
    {
        if a.get_char(i) != b.get_char(i) {
            return false;
        }
        i += 1;
    }
    proof {
        assert(a@ =~= b@);
    }
    true
}

/// Parse a delimiter name into its byte.
pub fn delimiter(s: &str) -> (r: Result<u8, DelimiterError>)
    ensures
        match r {
            Ok(b) => delimiter_spec(s@) == Some(b),
            Err(e) => delimiter_spec(s@) is None && e == DelimiterError,
        },
{
    if str_eq(s, "nul") {
        Ok(0)
    } else if str_eq(s, "soh") {
        Ok(1)
    } else if str_eq(s, "stx") {
        Ok(2)
    } else if str_eq(s, "etx") {
        Ok(3)
    } else if str_eq(s, "eot") {
        Ok(4)
    } else if str_eq(s, "enq") {
        Ok(5)
    } else if str_eq(s, "ack") {
        Ok(6)
    } else if str_eq(s, "bel") {
        Ok(7)
    } else if str_eq(s, "bs") {
        Ok(8)
    } else if str_eq(s, "ht") {
        Ok(9)
    } else if str_eq(s, "lf") {
        Ok(10)
    } else if str_eq(s, "vt") {
        Ok(11)
    } else if str_eq(s, "ff") {
        Ok(12)
    } else if str_eq(s, "cr") {
        Ok(13)
    } else if str_eq(s, "so") {
        Ok(14)
    } else if str_eq(s, "si") {
        Ok(15)
    } else if str_eq(s, "dle") {
        Ok(16)
    } else if str_eq(s, "dc1") {
        Ok(17)
    } else if str_eq(s, "dc2") {
        Ok(18)
    } else if str_eq(s, "dc3") {
        Ok(19)
    } else if str_eq(s, "dc4") {
        Ok(20)
    } else if str_eq(s, "nak") {
        Ok(21)
    } else if str_eq(s, "syn") {
        Ok(22)
    } else if str_eq(s, "etb") {
        Ok(23)
    } else if str_eq(s, "can") {
        Ok(24)
    } else if str_eq(s, "em") {
        Ok(25)
    } else if str_eq(s, "sub") {
        Ok(26)
    } else if str_eq(s, "esc") {
        Ok(27)
    } else if str_eq(s, "fs") {
        Ok(28)
    } else if str_eq(s, "gs") {
        Ok(29)
    } else if str_eq(s, "rs") {
        Ok(30)
    } else if str_eq(s, "us") {
        Ok(31)
    } else if str_eq(s, "sp") {
        Ok(32)
    } else if str_eq(s, "exc") {
        Ok(33)
    } else if str_eq(s, "quo") {
        Ok(34)
    } else if str_eq(s, "hsh") {
        Ok(35)
    } else if str_eq(s, "dol") {
        Ok(36)
    } else if str_eq(s, "pct") {
        Ok(37)
    } else if str_eq(s, "amp") {
        Ok(38)
    } else if str_eq(s, "squ") {
        Ok(39)
    } else if str_eq(s, "lpr") {
        Ok(40)
    } else if str_eq(s, "rpr") {
        Ok(41)
    } else if str_eq(s, "ast") {
        Ok(42)
    } else if str_eq(s, "plu") {
        Ok(43)
    } else if str_eq(s, "com") {
        Ok(44)
    } else if str_eq(s, "hyp") {
        Ok(45)
    } else if str_eq(s, "dot") {
        Ok(46)
    } else if str_eq(s, "sl") {
        Ok(47)
    } else if str_eq(s, "col") {
        Ok(58)
    } else if str_eq(s, "sem") {
        Ok(59)
    } else if str_eq(s, "lt") {
        Ok(60)
    } else if str_eq(s, "eq") {
        Ok(61)
    } else if str_eq(s, "gt") {
        Ok(62)
    } else if str_eq(s, "que") {
        Ok(63)
    } else if str_eq(s, "at") {
        Ok(64)
    } else if str_eq(s, "lbr") {
        Ok(91)
    } else if str_eq(s, "bsl") {
        Ok(92)
    } else if str_eq(s, "rbr") {
        Ok(93)
    } else if str_eq(s, "car") {
        Ok(94)
    } else if str_eq(s, "und") {
        Ok(95)
    } else if str_eq(s, "tic") {
        Ok(96)
    } else if str_eq(s, "lbc") {
        Ok(123)
    } else if str_eq(s, "pip") {
        Ok(124)
    } else if str_eq(s, "rbc") {
        Ok(125)
    } else if str_eq(s, "til") {
        Ok(126)
    } else if str_eq(s, "del") {
        Ok(127)
    } else if s.unicode_len() == 1 {
        let c = s.get_char(0);
        let u = c as u32;
        if u <= 127 {
            Ok(u as u8)
        } else {
            Err(DelimiterError)
        }
    } else {
        Err(DelimiterError)
    }
}

/// Parse a record-terminator name: `crlf`, or any delimiter name.
pub fn terminator(s: &str) -> (r: Result<RecordTerminator, DelimiterError>)
    ensures
        s@ == "crlf"@ ==> r == Ok::<RecordTerminator, DelimiterError>(RecordTerminator::Crlf),
        s@ != "crlf"@ ==> match r {
            Ok(t) => t matches RecordTerminator::Byte(b) && delimiter_spec(s@) == Some(b),
            Err(e) => delimiter_spec(s@) is None && e == DelimiterError,
        },
{
    if str_eq(s, "crlf") {
        Ok(RecordTerminator::Crlf)
    } else {
        match delimiter(s) {
            Ok(b) => Ok(RecordTerminator::Byte(b)),
            Err(e) => Err(e),
        }
    }
}

/// The trim policy a name stands for; an unknown name trims nothing.
pub open spec fn trim_spec(s: Seq<char>) -> TrimPolicy {
    if s == "h"@ || s == "headers"@ {
        TrimPolicy::Headers
    } else if s == "f"@ || s == "fields"@ {
        TrimPolicy::Fields
    } else if s == "hf"@ || s == "fh"@ || s == "both"@ || s == "all"@ {
        TrimPolicy::All
    } else {
        TrimPolicy::NoTrim
    }
}

/// Parse a trim-policy name.
pub fn trim(s: &str) -> (r: TrimPolicy)
    ensures
        r == trim_spec(s@),
{
    if str_eq(s, "h") || str_eq(s, "headers") {
        TrimPolicy::Headers
    } else if str_eq(s, "f") || str_eq(s, "fields") {
        TrimPolicy::Fields
    } else if str_eq(s, "hf") || str_eq(s, "fh") || str_eq(s, "both") || str_eq(s, "all") {
        TrimPolicy::All
    } else {
        TrimPolicy::NoTrim
    }
}

} // verus!
