use vstd::prelude::*;
use vstd::string::StringExecFns;

verus! {

/// Every way a class file can fail to decode. Each variant carries the
/// offending raw value where there is one.
#[derive(Debug, Clone, Copy, PartialEq, Eq, Structural)]
pub enum ClassReaderError {
    InvalidMagicBytes(u32),
    InvalidConstantPoolIdx(u16),
    InvalidMethodHandleReferenceKind(u8),
    InvalidConstItemTag(u8),
    InvalidClassAccessFlags(u16),
    InvalidFieldAccessFlags(u16),
    InvalidMethodAccessFlags(u16),
    UnexpectedEndOfData,
    InvalidCesu8String,
    UnsupportedVersion(u16, u16),
}

pub type Result<T> = core::result::Result<T, ClassReaderError>;


/// The character of a digit below 16 (upper-case beyond 9).
pub open spec fn digit_char(d: nat) -> char {
    if d == 0 {
        '0'
    } else if d == 1 {
        '1'
    } else if d == 2 {
        '2'
    } else if d == 3 {
        '3'
    } else if d == 4 {
        '4'
    } else if d == 5 {
        '5'
    } else if d == 6 {
        '6'
    } else if d == 7 {
        '7'
    } else if d == 8 {
        '8'
    } else if d == 9 {
        '9'
    } else if d == 10 {
        'A'
    } else if d == 11 {
        'B'
    } else if d == 12 {
        'C'
    } else if d == 13 {
        'D'
    } else if d == 14 {
        'E'
    } else if d == 15 {
        'F'
    } else {
        '?'
    }
}

/// The decimal digits of `n`, most significant first.
pub open spec fn decimal(n: nat) -> Seq<char>
    decreases n,
{
    if n < 10 {
        seq![digit_char(n)]
    } else {
        decimal(n / 10) + seq![digit_char(n % 10)]
    }
}

/// The last `k` hexadecimal digits of `n`, zero-padded, most significant
/// first.
pub open spec fn hex_digits(n: nat, k: nat) -> Seq<char>
    decreases k,
{
    if k == 0 {
        Seq::empty()
    } else {
        hex_digits(n / 16, (k - 1) as nat) + seq![digit_char(n % 16)]
    }
}

/// The text of one digit below 16.
fn digit_str(d: u32) -> (r: &'static str)
    requires
        d < 16,
    ensures
        r@ == seq![digit_char(d as nat)],
{
    if d == 0 {
        proof {
            reveal_strlit("0");
        }
        assert("0"@ =~= seq!['0']);
        "0"
    } else if d == 1 {
        proof {
            reveal_strlit("1");
        }
        assert("1"@ =~= seq!['1']);
        "1"
    } else if d == 2 {
        proof {
            reveal_strlit("2");
        }
        assert("2"@ =~= seq!['2']);
        "2"
    } else if d == 3 {
        proof {
            reveal_strlit("3");
        }
        assert("3"@ =~= seq!['3']);
        "3"
    } else if d == 4 {
        proof {
            reveal_strlit("4");
        }
        assert("4"@ =~= seq!['4']);
        "4"
    } else if d == 5 {
        proof {
            reveal_strlit("5");
        }
        assert("5"@ =~= seq!['5']);
        "5"
    } else if d == 6 {
        proof {
            reveal_strlit("6");
        }
        assert("6"@ =~= seq!['6']);
        "6"
    } else if d == 7 {
        proof {
            reveal_strlit("7");
        }
        assert("7"@ =~= seq!['7']);
        "7"
    } else if d == 8 {
        proof {
            reveal_strlit("8");
        }
        assert("8"@ =~= seq!['8']);
        "8"
    } else if d == 9 {
        proof {
            reveal_strlit("9");
        }
        assert("9"@ =~= seq!['9']);
        "9"
    } else if d == 10 {
        proof {
            reveal_strlit("A");
        }
        assert("A"@ =~= seq!['A']);
        "A"
    } else if d == 11 {
        proof {
            reveal_strlit("B");
        }
        assert("B"@ =~= seq!['B']);
        "B"
    } else if d == 12 {
        proof {
            reveal_strlit("C");
        }
        assert("C"@ =~= seq!['C']);
        "C"
    } else if d == 13 {
        proof {
            reveal_strlit("D");
        }
        assert("D"@ =~= seq!['D']);
        "D"
    } else if d == 14 {
        proof {
            reveal_strlit("E");
        }
        assert("E"@ =~= seq!['E']);
        "E"
    } else if d == 15 {
        proof {
            reveal_strlit("F");
        }
        assert("F"@ =~= seq!['F']);
        "F"
    } else {
        proof {
            reveal_strlit("F");
        }
        assert("F"@ =~= seq!['F']);
        "F"
    }
}

/// Appends the decimal digits of `n`.
fn push_decimal(s: &mut String, n: u32)
    ensures
        final(s)@ == old(s)@ + decimal(n as nat),
    decreases n,
{
    let ghost start = s@;
    if n >= 10 {
        push_decimal(s, n / 10);
    }
    s.append(digit_str(n % 10));
    assert(s@ =~= start + decimal(n as nat));
}

/// Appends the last `k` hexadecimal digits of `n`.
fn push_hex(s: &mut String, n: u32, k: u32)
    ensures
        final(s)@ == old(s)@ + hex_digits(n as nat, k as nat),
    decreases k,
{
    let ghost start = s@;
    if k > 0 {
        push_hex(s, n / 16, k - 1);
        s.append(digit_str(n % 16));
        assert(s@ =~= start + hex_digits(n as nat, k as nat));
    } else {
        assert(s@ =~= start + hex_digits(n as nat, k as nat));
    }
}

/// The message that describes an error.
pub open spec fn message_of(e: ClassReaderError) -> Seq<char> {
    match e {
        ClassReaderError::InvalidMagicBytes(bytes) => "Invalid magic bytes `0x"@ + hex_digits(bytes as nat, 8) + "` (expected 0xCAFEBABE)"@,
        ClassReaderError::InvalidConstantPoolIdx(idx) => "Invalid ConstantPool index `"@ + decimal(idx as nat) + "`"@,
        ClassReaderError::InvalidMethodHandleReferenceKind(val) => "Invalid value `"@ + decimal(val as nat) + "` for MethodHandle reference_kind (not in range 1..=9)"@,
        ClassReaderError::InvalidConstItemTag(tag) => "Invalid ConstItem tag `"@ + decimal(tag as nat) + "` (expected one of 1, 3, 4, 5, 6, 7, 8, 9, 10, 11, 12, 15, 16, 18)"@,
        ClassReaderError::InvalidClassAccessFlags(flags) => "Invalid class access flags: "@ + decimal(flags as nat),
        ClassReaderError::InvalidFieldAccessFlags(flags) => "Invalid field access flags: "@ + decimal(flags as nat),
        ClassReaderError::InvalidMethodAccessFlags(flags) => "Invalid method access flags: "@ + decimal(flags as nat),
        ClassReaderError::UnexpectedEndOfData => "Unexpected end of data"@,
        ClassReaderError::InvalidCesu8String => "Invalid cesu8 string"@,
        ClassReaderError::UnsupportedVersion(major, minor) => "Unsupported class file version "@ + decimal(major as nat) + "."@ + decimal(minor as nat),
    }
}

impl ClassReaderError {
    /// A sentence that describes the error, with its offending value.
    pub fn message(&self) -> (r: String)
        ensures
            r@ == message_of(*self),
    {
        match self {
            ClassReaderError::InvalidMagicBytes(bytes) => {
                let mut s = String::from_str("Invalid magic bytes `0x");
                push_hex(&mut s, *bytes, 8);
                s.append("` (expected 0xCAFEBABE)");
                s
            },
            ClassReaderError::InvalidConstantPoolIdx(idx) => {
                let mut s = String::from_str("Invalid ConstantPool index `");
                push_decimal(&mut s, *idx as u32);
                s.append("`");
                s
            },
            ClassReaderError::InvalidMethodHandleReferenceKind(val) => {
                let mut s = String::from_str("Invalid value `");
                push_decimal(&mut s, *val as u32);
                s.append("` for MethodHandle reference_kind (not in range 1..=9)");
                s
            },
            ClassReaderError::InvalidConstItemTag(tag) => {
                let mut s = String::from_str("Invalid ConstItem tag `");
                push_decimal(&mut s, *tag as u32);
                s.append("` (expected one of 1, 3, 4, 5, 6, 7, 8, 9, 10, 11, 12, 15, 16, 18)");
                s
            },
            ClassReaderError::InvalidClassAccessFlags(flags) => {
                let mut s = String::from_str("Invalid class access flags: ");
                push_decimal(&mut s, *flags as u32);
                s
            },
            ClassReaderError::InvalidFieldAccessFlags(flags) => {
                let mut s = String::from_str("Invalid field access flags: ");
                push_decimal(&mut s, *flags as u32);
                s
            },
            ClassReaderError::InvalidMethodAccessFlags(flags) => {
                let mut s = String::from_str("Invalid method access flags: ");
                push_decimal(&mut s, *flags as u32);
                s
            },
            ClassReaderError::UnexpectedEndOfData => {
                let mut s = String::from_str("Unexpected end of data");
                s
            },
            ClassReaderError::InvalidCesu8String => {
                let mut s = String::from_str("Invalid cesu8 string");
                s
            },
            ClassReaderError::UnsupportedVersion(major, minor) => {
                let mut s = String::from_str("Unsupported class file version ");
                push_decimal(&mut s, *major as u32);
                s.append(".");
                push_decimal(&mut s, *minor as u32);
                s
            },
        }
    }
}

} // verus!
