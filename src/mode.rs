//! The transform direction chosen on the command line.

use vstd::prelude::*;
use vstd::string::StringSliceAdditionalSpecFns;

verus! {

/// ASCII code of `c`.
pub const LETTER_C: u8 = 99;
/// ASCII code of `d`.
pub const LETTER_D: u8 = 100;
/// ASCII code of `e`.
pub const LETTER_E: u8 = 101;
/// ASCII code of `n`.
pub const LETTER_N: u8 = 110;
/// ASCII code of `p`.
pub const LETTER_P: u8 = 112;
/// ASCII code of `r`.
pub const LETTER_R: u8 = 114;
/// ASCII code of `t`.
pub const LETTER_T: u8 = 116;
/// ASCII code of `y`.
pub const LETTER_Y: u8 = 121;

/// Direction of the transform.
#[derive(Debug, Clone, Copy, PartialEq, Eq, Structural)]
pub enum Mode {
    Encrypt,
    Decrypt,
}

/// The mode that a command-line word names: `e` or `encrypt`, `d` or
/// `decrypt`; no other word names one.
pub open spec fn mode_named(word: Seq<u8>) -> Option<Mode> {
    if word == seq![LETTER_E] || word == seq![LETTER_E, LETTER_N, LETTER_C, LETTER_R, LETTER_Y, LETTER_P, LETTER_T] {
        Some(Mode::Encrypt)
    } else if word == seq![LETTER_D] || word == seq![LETTER_D, LETTER_E, LETTER_C, LETTER_R, LETTER_Y, LETTER_P, LETTER_T] {
        Some(Mode::Decrypt)
    } else {
        None
    }
}

/// Whether `b` spells the two letters `h0 h1` followed by "crypt".
fn spells(b: &[u8], h0: u8, h1: u8) -> (r: bool)
    ensures
        r == (b@ == seq![h0, h1, LETTER_C, LETTER_R, LETTER_Y, LETTER_P, LETTER_T]),
{
    let r = b.len() == 7 && b[0] == h0 && b[1] == h1 && b[2] == LETTER_C && b[3] == LETTER_R && b[4] == LETTER_Y
        && b[5] == LETTER_P && b[6] == LETTER_T;
    proof {
        if r {
            assert(b@ =~= seq![h0, h1, LETTER_C, LETTER_R, LETTER_Y, LETTER_P, LETTER_T]);
        }
    }
    r
}

/// Reads the mode word given on the command line.
pub fn parse_mode(word: &str) -> (r: Option<Mode>)
    ensures
        r == mode_named(word.spec_bytes()),
{
    let b = word.as_bytes();
    let single = b.len() == 1;
    proof {
        if single {
            assert(b@ =~= seq![b@[0]]);
        }
    }
    if (single && b[0] == LETTER_E) || spells(b, LETTER_E, LETTER_N) {
        Some(Mode::Encrypt)
    } else if (single && b[0] == LETTER_D) || spells(b, LETTER_D, LETTER_E) {
        Some(Mode::Decrypt)
    } else {
        None
    }
}

} // verus!
