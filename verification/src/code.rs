//! The decoded output alphabet and its text rendering.

use vstd::prelude::*;
use vstd::string::StringExecFns;

verus! {

/// One decoded Morse token. `Dit` and `Dah` are short and long marks;
/// `Short` is a gap between letters, `Long` a gap between words.
#[derive(Clone, Copy, Debug, PartialEq, Eq, Structural)]
pub enum Code {
    Dit,
    Dah,
    Short,
    Long,
}

/// The character a single token is rendered as.
pub open spec fn code_char(code: Code) -> char {
    match code {
        Code::Dit => '.',
        Code::Dah => '-',
        Code::Short => ' ',
        Code::Long => '\n',
    }
}

/// The text a token sequence is rendered as: one character per token.
pub open spec fn code_chars(codes: Seq<Code>) -> Seq<char>
    decreases codes.len(),
{
    if codes.len() == 0 {
        Seq::empty()
    } else {
        code_chars(codes.drop_last()).push(code_char(codes.last()))
    }
}

impl Code {
    /// Renders a token sequence as text: `.` for a dit, `-` for a dah,
    /// a space for a letter gap and a newline for a word gap.
    pub fn display_code_string(code_string: Vec<Code>) -> (text: String)
        ensures
            text@ == code_chars(code_string@),
    {
        let mut text = String::new();
        let mut i: usize = 0;
        while i < code_string.len()
            invariant
                i <= code_string.len(),
                text@ == code_chars(code_string@.take(i as int)),
            decreases code_string.len() - i,
        {
            match code_string[i] {
                Code::Dit => text.append("."),
                Code::Dah => text.append("-"),
                Code::Short => text.append(" "),
                Code::Long => text.append("\n"),
            }
            proof {
                reveal_strlit(".");
                reveal_strlit("-");
                reveal_strlit(" ");
                reveal_strlit("\n");
                assert(code_string@.take(i + 1).drop_last() =~= code_string@.take(i as int));
                assert(code_string@.take(i + 1).last() == code_string@[i as int]);
            }
            i = i + 1;
        }
        proof {
            assert(code_string@.take(code_string@.len() as int) =~= code_string@);
        }
        text
    }
}

} // verus!
