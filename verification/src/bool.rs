//! Boolean literals: `true` and `false`.

use vstd::prelude::*;
use vstd::utf8::{encode_utf8, is_ascii_chars};
use crate::err::{err_absent, Error, ErrorKind};

verus! {

/// A boolean literal.
#[derive(Debug, Clone, Copy, PartialEq, Eq, Structural)]
pub enum BoolLit {
    False,
    True,
}

/// The characters `false`.
pub open spec fn false_spelling() -> Seq<char> {
    seq!['f', 'a', 'l', 's', 'e']
}

/// The characters `true`.
pub open spec fn true_spelling() -> Seq<char> {
    seq!['t', 'r', 'u', 'e']
}

/// Text is spelled `false` exactly if its bytes are those of `false`, and
/// `true` exactly if its bytes are those of `true`.
pub proof fn lemma_spelling_bytes(chars: Seq<char>)
    ensures
        chars == false_spelling() <==> encode_utf8(chars) == seq![
            0x66u8,
            0x61u8,
            0x6Cu8,
            0x73u8,
            0x65u8,
        ],
        chars == true_spelling() <==> encode_utf8(chars) == seq![0x74u8, 0x72u8, 0x75u8, 0x65u8],
{
    let f = false_spelling();
    let t = true_spelling();
    assert(is_ascii_chars(f));
    assert(is_ascii_chars(t));
    vstd::utf8::is_ascii_chars_encode_utf8(f);
    vstd::utf8::is_ascii_chars_encode_utf8(t);
    assert(encode_utf8(f) =~= seq![0x66u8, 0x61u8, 0x6Cu8, 0x73u8, 0x65u8]);
    assert(encode_utf8(t) =~= seq![0x74u8, 0x72u8, 0x75u8, 0x65u8]);
    vstd::utf8::encode_utf8_decode_utf8(f);
    vstd::utf8::encode_utf8_decode_utf8(t);
    vstd::utf8::encode_utf8_decode_utf8(chars);
}

impl BoolLit {
    /// How the literal is spelled.
    pub open spec fn spelling(self) -> Seq<char> {
        match self {
            BoolLit::False => false_spelling(),
            BoolLit::True => true_spelling(),
        }
    }

    /// Parses `s` as a boolean literal: `true` and `false` are the only
    /// ones. Text without a character is reported as empty, any other text
    /// as no literal.
    pub fn parse(s: &str) -> (res: Result<Self, Error>)
        ensures
            match res {
                Ok(lit) => s@ == lit.spelling(),
                Err(e) => if s@.len() == 0 {
                    e@ == err_absent(ErrorKind::Empty)
                } else {
                    &&& e@ == err_absent(ErrorKind::InvalidLiteral)
                    &&& s@ != false_spelling()
                    &&& s@ != true_spelling()
                },
            },
    {
        if s.is_empty() {
            return Err(Error::absent(ErrorKind::Empty));
        }
        let bytes = s.as_bytes();
        proof {
            lemma_spelling_bytes(s@);
        }
        if bytes.len() == 5 && bytes[0] == 0x66 && bytes[1] == 0x61 && bytes[2] == 0x6C
            && bytes[3] == 0x73 && bytes[4] == 0x65 {
            assert(bytes@ =~= seq![0x66u8, 0x61u8, 0x6Cu8, 0x73u8, 0x65u8]);
            Ok(BoolLit::False)
        } else if bytes.len() == 4 && bytes[0] == 0x74 && bytes[1] == 0x72 && bytes[2] == 0x75
            && bytes[3] == 0x65 {
            assert(bytes@ =~= seq![0x74u8, 0x72u8, 0x75u8, 0x65u8]);
            Ok(BoolLit::True)
        } else {
            Err(Error::absent(ErrorKind::InvalidLiteral))
        }
    }

    /// The boolean that the literal stands for.
    pub fn value(self) -> (value: bool)
        ensures
            value == (self == BoolLit::True),
    {
        match self {
            BoolLit::False => false,
            BoolLit::True => true,
        }
    }

    /// The literal as it is spelled.
    pub fn as_str(&self) -> (text: &'static str)
        ensures
            text@ == self.spelling(),
    {
        match self {
            BoolLit::False => {
                proof {
                    reveal_strlit("false");
                }
                assert("false"@ =~= false_spelling());
                "false"
            },
            BoolLit::True => {
                proof {
                    reveal_strlit("true");
                }
                assert("true"@ =~= true_spelling());
                "true"
            },
        }
    }
}

} // verus!
