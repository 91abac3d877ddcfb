//! The assembler: source text in, a Program or a typed parse error out.
//!
//! The grammar: statements are separated by ';'; each statement is
//! `[label ':'] mnemonic operand...`, tokens separated by single spaces; a
//! mnemonic is matched case-insensitively and fixes its operand count;
//! operands are `r<digits>` (register), `<number>f` (float), `<number>i`
//! (signed, optional leading '-'), `<number>u` (unsigned); jump-family
//! instructions take the raw trimmed remainder of the statement as a label.
//! The assembler stops at the first error and never returns a partial
//! program; jump targets are not checked against the label table here.
//!
//! Every function's result is pinned to a spec-level parser over character
//! sequences; `AbstractCommand` and `AbstractParseError` mirror `Command`
//! and `MooParseError` with label and message text as character sequences.
use crate::float_bits;
use crate::program::{label_map_of_names, Program};
use crate::text::{chars_eq_str, chars_of, string_of_chars, sub_chars};
use crate::vm::{
    lemma_branch_law, lemma_unsigned_add_wraps, lemma_unsigned_div_zero_faults, step_rel, ArithOp,
    Command, Fault, MachineState, Param,
};
use vstd::prelude::*;
use vstd::seq_lib::*;

verus! {

/// A statement-level mirror of `Command`, with label text as a character
/// sequence, for use in specifications.
pub ghost enum AbstractCommand {
    IAdd(Param, Param, Param),
    ISub(Param, Param, Param),
    IMul(Param, Param, Param),
    IDiv(Param, Param, Param),
    ICmp(Param, Param),
    UAdd(Param, Param, Param),
    USub(Param, Param, Param),
    UMul(Param, Param, Param),
    UDiv(Param, Param, Param),
    UCmp(Param, Param),
    FAdd(Param, Param, Param),
    FSub(Param, Param, Param),
    FMul(Param, Param, Param),
    FDiv(Param, Param, Param),
    FCmp(Param, Param),
    Load(Param, Param),
    Jump(Seq<char>),
    JFNeg(Param, Seq<char>),
    JINeg(Param, Seq<char>),
    JGre(Seq<char>),
    JLess(Seq<char>),
    JEq(Seq<char>),
    JNeq(Seq<char>),
}

impl View for Command {
    type V = AbstractCommand;

    open spec fn view(&self) -> AbstractCommand {
        match self {
            Command::IAdd(a, b, t) => AbstractCommand::IAdd(*a, *b, *t),
            Command::ISub(a, b, t) => AbstractCommand::ISub(*a, *b, *t),
            Command::IMul(a, b, t) => AbstractCommand::IMul(*a, *b, *t),
            Command::IDiv(a, b, t) => AbstractCommand::IDiv(*a, *b, *t),
            Command::ICmp(a, b) => AbstractCommand::ICmp(*a, *b),
            Command::UAdd(a, b, t) => AbstractCommand::UAdd(*a, *b, *t),
            Command::USub(a, b, t) => AbstractCommand::USub(*a, *b, *t),
            Command::UMul(a, b, t) => AbstractCommand::UMul(*a, *b, *t),
            Command::UDiv(a, b, t) => AbstractCommand::UDiv(*a, *b, *t),
            Command::UCmp(a, b) => AbstractCommand::UCmp(*a, *b),
            Command::FAdd(a, b, t) => AbstractCommand::FAdd(*a, *b, *t),
            Command::FSub(a, b, t) => AbstractCommand::FSub(*a, *b, *t),
            Command::FMul(a, b, t) => AbstractCommand::FMul(*a, *b, *t),
            Command::FDiv(a, b, t) => AbstractCommand::FDiv(*a, *b, *t),
            Command::FCmp(a, b) => AbstractCommand::FCmp(*a, *b),
            Command::Load(w, t) => AbstractCommand::Load(*w, *t),
            Command::Jump(l) => AbstractCommand::Jump(l@),
            Command::JFNeg(p, l) => AbstractCommand::JFNeg(*p, l@),
            Command::JINeg(p, l) => AbstractCommand::JINeg(*p, l@),
            Command::JGre(l) => AbstractCommand::JGre(l@),
            Command::JLess(l) => AbstractCommand::JLess(l@),
            Command::JEq(l) => AbstractCommand::JEq(l@),
            Command::JNeq(l) => AbstractCommand::JNeq(l@),
        }
    }
}

/// The parse errors. The assembler returns the first one it meets, carrying
/// the offending statement or token text; an I/O failure while obtaining
/// source text travels in its own variant.
#[derive(Debug)]
pub enum MooParseError {
    CommandNotFound(String),
    IOError(std::io::Error),
    InvalidParamAmount,
    InvalidParam(String),
    InvalidSyntax(String),
    InvalidLineStructure(String),
}

#[verifier::external_type_specification]
#[verifier::external_body]
pub struct ExIoError(std::io::Error);

/// A mirror of `MooParseError` with message text as a character sequence,
/// for use in specifications. An I/O error's contents are outside the model.
pub ghost enum AbstractParseError {
    CommandNotFound(Seq<char>),
    IOFailure,
    InvalidParamAmount,
    InvalidParam(Seq<char>),
    InvalidSyntax(Seq<char>),
    InvalidLineStructure(Seq<char>),
}

impl View for MooParseError {
    type V = AbstractParseError;

    open spec fn view(&self) -> AbstractParseError {
        match self {
            MooParseError::CommandNotFound(s) => AbstractParseError::CommandNotFound(s@),
            MooParseError::IOError(_) => AbstractParseError::IOFailure,
            MooParseError::InvalidParamAmount => AbstractParseError::InvalidParamAmount,
            MooParseError::InvalidParam(s) => AbstractParseError::InvalidParam(s@),
            MooParseError::InvalidSyntax(s) => AbstractParseError::InvalidSyntax(s@),
            MooParseError::InvalidLineStructure(s) => AbstractParseError::InvalidLineStructure(s@),
        }
    }
}

/// The whitespace the assembler strips around statements, labels and tokens.
pub open spec fn spec_is_space(c: char) -> bool {
    c == ' ' || c == '\t' || c == '\n' || c == '\r'
}

#[verifier::when_used_as_spec(spec_is_space)]
pub fn is_space(c: char) -> (r: bool)
    ensures
        r == spec_is_space(c),
{
    c == ' ' || c == '\t' || c == '\n' || c == '\r'
}

/// The sequence with leading whitespace removed.
pub open spec fn trim_front(s: Seq<char>) -> Seq<char>
    decreases s.len(),
{
    if s.len() > 0 && spec_is_space(s[0]) {
        trim_front(s.drop_first())
    } else {
        s
    }
}

/// The sequence with trailing whitespace removed.
pub open spec fn trim_back(s: Seq<char>) -> Seq<char>
    decreases s.len(),
{
    if s.len() > 0 && spec_is_space(s.last()) {
        trim_back(s.drop_last())
    } else {
        s
    }
}

/// The sequence with whitespace removed from both ends.
pub open spec fn trim(s: Seq<char>) -> Seq<char> {
    trim_back(trim_front(s))
}

/// The pieces of a sequence split on a separator character: one piece more
/// than there are separators, empty pieces kept.
pub open spec fn split_on(s: Seq<char>, sep: char) -> Seq<Seq<char>>
    decreases s.len(),
{
    if s.len() == 0 {
        seq![Seq::<char>::empty()]
    } else if s[0] == sep {
        seq![Seq::<char>::empty()] + split_on(s.drop_first(), sep)
    } else {
        let rest = split_on(s.drop_first(), sep);
        seq![seq![s[0]] + rest[0]] + rest.drop_first()
    }
}

/// Splitting never yields an empty piece list.
pub proof fn lemma_split_len(s: Seq<char>, sep: char)
    ensures
        split_on(s, sep).len() >= 1,
    decreases s.len(),
{
    if s.len() > 0 {
        lemma_split_len(s.drop_first(), sep);
    }
}

/// How one more character extends a split: a separator opens a fresh empty
/// piece, anything else lands at the end of the last piece.
pub proof fn lemma_split_push(s: Seq<char>, c: char, sep: char)
    ensures
        split_on(s, sep).len() >= 1,
        c == sep ==> split_on(s.push(c), sep) == split_on(s, sep).push(Seq::<char>::empty()),
        c != sep ==> split_on(s.push(c), sep) == split_on(s, sep).update(
            split_on(s, sep).len() - 1,
            split_on(s, sep).last().push(c),
        ),
    decreases s.len(),
{
    lemma_split_len(s, sep);
    if s.len() == 0 {
        assert(s.push(c).drop_first() =~= s);
        if c == sep {
            assert(split_on(s.push(c), sep) =~~= split_on(s, sep).push(Seq::<char>::empty()));
        } else {
            assert(split_on(s.push(c), sep) =~~= split_on(s, sep).update(
                0,
                split_on(s, sep).last().push(c),
            ));
        }
    } else {
        assert(s.push(c).drop_first() =~= s.drop_first().push(c));
        lemma_split_push(s.drop_first(), c, sep);
        lemma_split_len(s.drop_first(), sep);
        if c == sep {
            assert(split_on(s.push(c), sep) =~~= split_on(s, sep).push(Seq::<char>::empty()));
        } else {
            assert(split_on(s.push(c), sep) =~~= split_on(s, sep).update(
                split_on(s, sep).len() - 1,
                split_on(s, sep).last().push(c),
            ));
        }
    }
}


/// The pieces of a character vector split on a separator.
pub fn split_chars(v: &Vec<char>, sep: char) -> (r: Vec<Vec<char>>)
    ensures
        r@.map_values(|p: Vec<char>| p@) == split_on(v@, sep),
        r@.len() >= 1,
{
    let mut out: Vec<Vec<char>> = Vec::new();
    let mut cur: Vec<char> = Vec::new();
    let n = v.len();
    let mut i: usize = 0;
    proof {
        assert(v@.take(0) =~= Seq::<char>::empty());
        assert(out@.map_values(|p: Vec<char>| p@).push(cur@) =~~= split_on(v@.take(0), sep));
    }
    while i < n
        invariant
            0 <= i <= n,
            n == v@.len(),
            out@.map_values(|p: Vec<char>| p@).push(cur@) == split_on(v@.take(i as int), sep),
        decreases n - i,
    {
        let c = v[i];
        proof {
            lemma_split_push(v@.take(i as int), c, sep);
            assert(v@.take(i as int).push(c) =~= v@.take(i + 1));
        }
        if c == sep {
            let ghost prev_out = out@;
            let ghost prev_cur = cur@;
            out.push(cur);
            cur = Vec::new();
            proof {
                assert(out@.map_values(|p: Vec<char>| p@).push(cur@) =~~= split_on(
                    v@.take(i as int),
                    sep,
                ).push(Seq::<char>::empty()));
            }
        } else {
            cur.push(c);
            proof {
                assert(out@.map_values(|p: Vec<char>| p@).push(cur@) =~~= split_on(
                    v@.take(i as int),
                    sep,
                ).update(
                    split_on(v@.take(i as int), sep).len() - 1,
                    split_on(v@.take(i as int), sep).last().push(c),
                ));
            }
        }
        i = i + 1;
    }
    proof {
        assert(v@.take(n as int) =~= v@);
    }
    out.push(cur);
    proof {
        lemma_split_len(v@, sep);
    }
    out
}

proof fn lemma_trim_front_skip(s: Seq<char>, i: int)
    requires
        0 <= i <= s.len(),
        forall|j: int| 0 <= j < i ==> spec_is_space(s[j]),
        i < s.len() ==> !spec_is_space(s[i]),
    ensures
        trim_front(s) == s.skip(i),
    decreases i,
{
    if i == 0 {
        assert(s.skip(0) =~= s);
    } else {
        lemma_trim_front_skip(s.drop_first(), i - 1);
        assert(s.drop_first().skip(i - 1) =~= s.skip(i));
    }
}

proof fn lemma_trim_back_take(s: Seq<char>, j: int)
    requires
        0 <= j <= s.len(),
        forall|k: int| j <= k < s.len() ==> spec_is_space(s[k]),
        j > 0 ==> !spec_is_space(s[j - 1]),
    ensures
        trim_back(s) == s.take(j),
    decreases s.len() - j,
{
    if j == s.len() {
        assert(s.take(j) =~= s);
    } else {
        lemma_trim_back_take(s.drop_last(), j);
        assert(s.drop_last().take(j) =~= s.take(j));
    }
}

/// The characters of a vector with whitespace stripped from both ends.
pub fn trim_chars(v: &Vec<char>) -> (r: Vec<char>)
    ensures
        r@ == trim(v@),
{
    let n = v.len();
    let mut a: usize = 0;
    while a < n && is_space(v[a])
        invariant
            0 <= a <= n,
            n == v@.len(),
            forall|j: int| 0 <= j < a ==> spec_is_space(v@[j]),
        decreases n - a,
    {
        a = a + 1;
    }
    proof {
        lemma_trim_front_skip(v@, a as int);
    }
    let mut b: usize = n;
    while b > a && is_space(v[b - 1])
        invariant
            a <= b <= n,
            n == v@.len(),
            forall|k: int| b <= k < n ==> spec_is_space(v@[k]),
        decreases b,
    {
        b = b - 1;
    }
    let mut r: Vec<char> = Vec::new();
    let mut i: usize = a;
    while i < b
        invariant
            a <= i <= b <= n,
            n == v@.len(),
            r@ == v@.subrange(a as int, i as int),
        decreases b - i,
    {
        r.push(v[i]);
        proof {
            assert(v@.subrange(a as int, i as int).push(v@[i as int]) =~= v@.subrange(
                a as int,
                i + 1,
            ));
        }
        i = i + 1;
    }
    proof {
        lemma_trim_back_take(v@.skip(a as int), b - a);
        assert(v@.skip(a as int).take(b - a) =~= v@.subrange(a as int, b as int));
    }
    r
}

/// A capital ASCII letter's lower-case form; any other character is its own.
pub open spec fn spec_lower_char(c: char) -> char {
    if c == 'A' { 'a' } else if c == 'B' { 'b' } else if c == 'C' { 'c' }
    else if c == 'D' { 'd' } else if c == 'E' { 'e' } else if c == 'F' { 'f' }
    else if c == 'G' { 'g' } else if c == 'H' { 'h' } else if c == 'I' { 'i' }
    else if c == 'J' { 'j' } else if c == 'K' { 'k' } else if c == 'L' { 'l' }
    else if c == 'M' { 'm' } else if c == 'N' { 'n' } else if c == 'O' { 'o' }
    else if c == 'P' { 'p' } else if c == 'Q' { 'q' } else if c == 'R' { 'r' }
    else if c == 'S' { 's' } else if c == 'T' { 't' } else if c == 'U' { 'u' }
    else if c == 'V' { 'v' } else if c == 'W' { 'w' } else if c == 'X' { 'x' }
    else if c == 'Y' { 'y' } else if c == 'Z' { 'z' } else { c }
}

#[verifier::when_used_as_spec(spec_lower_char)]
pub fn lower_char(c: char) -> (r: char)
    ensures
        r == spec_lower_char(c),
{
    if c == 'A' { 'a' } else if c == 'B' { 'b' } else if c == 'C' { 'c' }
    else if c == 'D' { 'd' } else if c == 'E' { 'e' } else if c == 'F' { 'f' }
    else if c == 'G' { 'g' } else if c == 'H' { 'h' } else if c == 'I' { 'i' }
    else if c == 'J' { 'j' } else if c == 'K' { 'k' } else if c == 'L' { 'l' }
    else if c == 'M' { 'm' } else if c == 'N' { 'n' } else if c == 'O' { 'o' }
    else if c == 'P' { 'p' } else if c == 'Q' { 'q' } else if c == 'R' { 'r' }
    else if c == 'S' { 's' } else if c == 'T' { 't' } else if c == 'U' { 'u' }
    else if c == 'V' { 'v' } else if c == 'W' { 'w' } else if c == 'X' { 'x' }
    else if c == 'Y' { 'y' } else if c == 'Z' { 'z' } else { c }
}

/// A sequence lowered character by character (ASCII letters only).
pub open spec fn lower(s: Seq<char>) -> Seq<char> {
    s.map_values(|c: char| spec_lower_char(c))
}

/// A vector lowered character by character.
pub fn lower_chars(v: &Vec<char>) -> (r: Vec<char>)
    ensures
        r@ == lower(v@),
{
    let mut r: Vec<char> = Vec::new();
    let n = v.len();
    let mut i: usize = 0;
    proof {
        assert(r@ =~= v@.take(0).map_values(|c: char| spec_lower_char(c)));
    }
    while i < n
        invariant
            0 <= i <= n,
            n == v@.len(),
            r@ == v@.take(i as int).map_values(|c: char| spec_lower_char(c)),
        decreases n - i,
    {
        r.push(lower_char(v[i]));
        proof {
            assert(r@ =~= v@.take(i + 1).map_values(|c: char| spec_lower_char(c)));
        }
        i = i + 1;
    }
    proof {
        assert(v@.take(n as int) =~= v@);
    }
    r
}

/// A decimal digit.
pub open spec fn spec_is_digit(c: char) -> bool {
    '0' <= c && c <= '9'
}

/// A decimal digit's value.
pub open spec fn digit_val(c: char) -> nat {
    if c == '0' { 0 } else if c == '1' { 1 } else if c == '2' { 2 }
    else if c == '3' { 3 } else if c == '4' { 4 } else if c == '5' { 5 }
    else if c == '6' { 6 } else if c == '7' { 7 } else if c == '8' { 8 }
    else if c == '9' { 9 } else { 0 }
}

/// The number a sequence of decimal digits denotes.
pub open spec fn digits_val(s: Seq<char>) -> nat
    decreases s.len(),
{
    if s.len() == 0 {
        0
    } else {
        digits_val(s.drop_last()) * 10 + digit_val(s.last())
    }
}

/// Every character is a decimal digit.
pub open spec fn all_digits(s: Seq<char>) -> bool {
    forall|i: int| 0 <= i < s.len() ==> spec_is_digit(s[i])
}

/// The unsigned value a text of decimal digits denotes: None where the text
/// is empty, holds a non-digit, or does not fit in 64 bits.
pub open spec fn parse_unsigned(s: Seq<char>) -> Option<u64> {
    if s.len() > 0 && all_digits(s) && digits_val(s) <= u64::MAX {
        Some(digits_val(s) as u64)
    } else {
        None::<u64>
    }
}

/// The signed value a text denotes: an optional leading minus sign, then
/// decimal digits; None where malformed or out of the 64-bit signed range.
pub open spec fn parse_signed(s: Seq<char>) -> Option<i64> {
    if s.len() > 0 && s[0] == '-' {
        let d = s.drop_first();
        if d.len() > 0 && all_digits(d) && digits_val(d) <= 0x8000_0000_0000_0000 {
            Some((-(digits_val(d) as int)) as i64)
        } else {
            None::<i64>
        }
    } else if s.len() > 0 && all_digits(s) && digits_val(s) <= i64::MAX {
        Some(digits_val(s) as i64)
    } else {
        None::<i64>
    }
}


/// A digit's value, or zero for anything else.
fn digit_of(c: char) -> (d: u64)
    ensures
        d == digit_val(c),
{
    if c == '0' { 0 } else if c == '1' { 1 } else if c == '2' { 2 }
    else if c == '3' { 3 } else if c == '4' { 4 } else if c == '5' { 5 }
    else if c == '6' { 6 } else if c == '7' { 7 } else if c == '8' { 8 }
    else if c == '9' { 9 } else { 0 }
}

/// A longer digit text denotes at least as large a number.
proof fn lemma_digits_val_prefix(s: Seq<char>, i: int)
    requires
        0 <= i <= s.len(),
    ensures
        digits_val(s) >= digits_val(s.take(i)),
    decreases s.len() - i,
{
    if i == s.len() {
        assert(s.take(i) =~= s);
    } else {
        assert(s.take(i + 1).drop_last() =~= s.take(i));
        assert(digits_val(s.take(i + 1)) >= digits_val(s.take(i)));
        lemma_digits_val_prefix(s, i + 1);
    }
}

/// The unsigned value a digit vector denotes, where it fits in 64 bits.
fn parse_unsigned_chars(v: &Vec<char>) -> (r: Option<u64>)
    ensures
        r == parse_unsigned(v@),
{
    let n = v.len();
    if n == 0 {
        return None;
    }
    let mut acc: u64 = 0;
    let mut i: usize = 0;
    proof {
        assert(v@.take(0) =~= Seq::<char>::empty());
    }
    while i < n
        invariant
            0 <= i <= n,
            n == v@.len(),
            all_digits(v@.take(i as int)),
            acc == digits_val(v@.take(i as int)),
        decreases n - i,
    {
        let c = v[i];
        if c < '0' || c > '9' {
            return None;
        }
        let d = digit_of(c);
        proof {
            assert(v@.take(i + 1).drop_last() =~= v@.take(i as int));
            assert(v@.take(i + 1).last() == v@[i as int]);
        }
        if acc > (u64::MAX - d) / 10 {
            // The value up to here already exceeds 64 bits, so the whole
            // text does as well.
            proof {
                assert(digits_val(v@.take(i + 1)) > u64::MAX);
                lemma_digits_val_prefix(v@, i + 1);
            }
            return None;
        }
        acc = acc * 10 + d;
        i = i + 1;
    }
    proof {
        assert(v@.take(n as int) =~= v@);
    }
    Some(acc)
}

/// The signed value a text denotes: an optional leading minus sign, then
/// digits, saturating nowhere: out-of-range values are malformed.
fn parse_signed_chars(v: &Vec<char>) -> (r: Option<i64>)
    ensures
        r == parse_signed(v@),
{
    let n = v.len();
    if n == 0 {
        return None;
    }
    if v[0] == '-' {
        let d = sub_chars(v, 1, n);
        proof {
            assert(d@ =~= v@.drop_first());
        }
        match parse_unsigned_chars(&d) {
            Some(m) => {
                if m > 0x8000_0000_0000_0000 {
                    None
                } else if m == 0x8000_0000_0000_0000 {
                    Some(i64::MIN)
                } else {
                    Some(-(m as i64))
                }
            },
            None => {
                proof {
                    if d@.len() > 0 && all_digits(d@) {
                        assert(digits_val(d@) > u64::MAX);
                    }
                }
                None
            },
        }
    } else {
        match parse_unsigned_chars(v) {
            Some(m) => {
                if m > i64::MAX as u64 {
                    None
                } else {
                    Some(m as i64)
                }
            },
            None => None,
        }
    }
}


/// Every character is a decimal digit.
fn digits_only(v: &Vec<char>) -> (r: bool)
    ensures
        r == all_digits(v@),
{
    let n = v.len();
    let mut i: usize = 0;
    while i < n
        invariant
            0 <= i <= n,
            n == v@.len(),
            forall|j: int| 0 <= j < i ==> spec_is_digit(v@[j]),
        decreases n - i,
    {
        let c = v[i];
        if c < '0' || c > '9' {
            return false;
        }
        i = i + 1;
    }
    true
}

/// The significand of a decimal double literal: decimal digits with at most
/// one dot among them, and at least one digit in all.
pub open spec fn matches_mantissa(s: Seq<char>) -> bool {
    let ps = split_on(s, '.');
    if ps.len() == 1 {
        s.len() > 0 && all_digits(s)
    } else if ps.len() == 2 {
        all_digits(ps[0]) && all_digits(ps[1]) && (ps[0].len() > 0 || ps[1].len() > 0)
    } else {
        false
    }
}

fn matches_mantissa_chars(v: &Vec<char>) -> (r: bool)
    ensures
        r == matches_mantissa(v@),
{
    let ps = split_chars(v, '.');
    if ps.len() == 1 {
        v.len() > 0 && digits_only(v)
    } else if ps.len() == 2 {
        digits_only(&ps[0]) && digits_only(&ps[1]) && (ps[0].len() > 0 || ps[1].len() > 0)
    } else {
        false
    }
}

/// The exponent of a decimal double literal: an optional sign, then at
/// least one digit.
pub open spec fn matches_exponent(s: Seq<char>) -> bool {
    if s.len() > 0 && (s[0] == '-' || s[0] == '+') {
        s.len() > 1 && all_digits(s.drop_first())
    } else {
        s.len() > 0 && all_digits(s)
    }
}

fn matches_exponent_chars(v: &Vec<char>) -> (r: bool)
    ensures
        r == matches_exponent(v@),
{
    let n = v.len();
    if n > 0 && (v[0] == '-' || v[0] == '+') {
        let d = sub_chars(v, 1, n);
        proof {
            assert(d@ =~= v@.drop_first());
        }
        n > 1 && digits_only(&d)
    } else {
        n > 0 && digits_only(v)
    }
}

/// An unsigned decimal double literal: a significand, optionally followed
/// by an exponent marker and an exponent.
pub open spec fn matches_decimal(s: Seq<char>) -> bool {
    let ps = split_on(s, 'e');
    if ps.len() == 1 {
        matches_mantissa(s)
    } else if ps.len() == 2 {
        matches_mantissa(ps[0]) && matches_exponent(ps[1])
    } else {
        false
    }
}

fn matches_decimal_chars(v: &Vec<char>) -> (r: bool)
    ensures
        r == matches_decimal(v@),
{
    let ps = split_chars(v, 'e');
    if ps.len() == 1 {
        matches_mantissa_chars(v)
    } else if ps.len() == 2 {
        matches_mantissa_chars(&ps[0]) && matches_exponent_chars(&ps[1])
    } else {
        false
    }
}

/// The bit pattern a (lowered) float literal's text denotes: an optional
/// sign, then the spelled-out infinity or NaN words or decimal text per the
/// double grammar. Only grammar-checked decimal text reaches the trusted
/// text-to-double conversion; the infinities assemble to their fixed bit
/// patterns, and a NaN literal to the quiet NaN with the written sign.
pub open spec fn float_text_bits(s: Seq<char>) -> Option<u64> {
    let negative = s.len() > 0 && s[0] == '-';
    let body = if s.len() > 0 && (s[0] == '-' || s[0] == '+') {
        s.drop_first()
    } else {
        s
    };
    if body == "inf"@ || body == "infinity"@ {
        Some(float_bits::infinity_bits(negative))
    } else if body == "nan"@ {
        Some(float_bits::quiet_nan_bits(negative))
    } else if matches_decimal(body) {
        float_bits::f64_of_text_bits(s)
    } else {
        None::<u64>
    }
}

/// The bit pattern a float literal denotes, or None where the text is
/// outside the double grammar or the conversion refuses it.
fn float_literal_bits(s: &Vec<char>) -> (r: Option<u64>)
    ensures
        r == float_text_bits(s@),
{
    let n = s.len();
    let negative = n > 0 && s[0] == '-';
    let signed = n > 0 && (s[0] == '-' || s[0] == '+');
    let start: usize = if signed {
        1
    } else {
        0
    };
    let body = sub_chars(s, start, n);
    proof {
        if signed {
            assert(body@ =~= s@.drop_first());
        } else {
            assert(body@ =~= s@);
        }
    }
    if chars_eq_str(&body, "inf") || chars_eq_str(&body, "infinity") {
        Some(
            if negative {
                0xfff0_0000_0000_0000
            } else {
                0x7ff0_0000_0000_0000
            },
        )
    } else if chars_eq_str(&body, "nan") {
        Some(
            if negative {
                0xfff8_0000_0000_0000
            } else {
                0x7ff8_0000_0000_0000
            },
        )
    } else if matches_decimal_chars(&body) {
        let text = string_of_chars(s);
        float_bits::float_of_text(text.as_str())
    } else {
        None
    }
}

/// How a trimmed, lowered operand token classifies: `r<digits>` a register,
/// a trailing 'f', 'i' or 'u' a float, signed or unsigned constant (the
/// float literal per the double grammar above); anything else is an invalid
/// operand, reported with the prepared token text.
pub open spec fn parse_param_spec(token: Seq<char>) -> Result<Param, AbstractParseError> {
    let t = lower(trim(token));
    if t.len() > 0 && t[0] == 'r' {
        match parse_unsigned(t.drop_first()) {
            Some(n) => Ok(Param::Register(n)),
            None => Err(AbstractParseError::InvalidParam(t)),
        }
    } else if t.len() > 0 && t.last() == 'f' {
        match float_text_bits(t.drop_last()) {
            Some(b) => Ok(Param::FConstant(b)),
            None => Err(AbstractParseError::InvalidParam(t)),
        }
    } else if t.len() > 0 && t.last() == 'i' {
        match parse_signed(t.drop_last()) {
            Some(w) => Ok(Param::IConstant(w)),
            None => Err(AbstractParseError::InvalidParam(t)),
        }
    } else if t.len() > 0 && t.last() == 'u' {
        match parse_unsigned(t.drop_last()) {
            Some(w) => Ok(Param::UConstant(w)),
            None => Err(AbstractParseError::InvalidParam(t)),
        }
    } else {
        Err(AbstractParseError::InvalidParam(t))
    }
}

/// One operand token classified as a Param.
pub fn parse_param(param: &str) -> (r: Result<Param, MooParseError>)
    ensures
        match r {
            Ok(p) => parse_param_spec(param@) == Ok::<Param, AbstractParseError>(p),
            Err(e) => parse_param_spec(param@) == Err::<Param, AbstractParseError>(e@),
        },
{
    let chars = chars_of(param);
    let trimmed = trim_chars(&chars);
    let t = lower_chars(&trimmed);
    parse_param_token(&t)
}

/// One prepared (trimmed and lowered) operand token classified as a Param.
fn parse_param_token(t: &Vec<char>) -> (r: Result<Param, MooParseError>)
    ensures
        match r {
            Ok(p) => forall|orig: Seq<char>|
                lower(trim(orig)) == t@ ==> parse_param_spec(orig) == Ok::<
                    Param,
                    AbstractParseError,
                >(p),
            Err(e) => forall|orig: Seq<char>|
                lower(trim(orig)) == t@ ==> parse_param_spec(orig) == Err::<
                    Param,
                    AbstractParseError,
                >(e@),
        },
{
    let n = t.len();
    if n > 0 && t[0] == 'r' {
        let digits = sub_chars(t, 1, n);
        proof {
            assert(digits@ =~= t@.drop_first());
        }
        match parse_unsigned_chars(&digits) {
            Some(w) => Ok(Param::Register(w)),
            None => Err(MooParseError::InvalidParam(string_of_chars(t))),
        }
    } else if n > 0 && t[n - 1] == 'f' {
        let body = sub_chars(t, 0, n - 1);
        proof {
            assert(body@ =~= t@.drop_last());
        }
        match float_literal_bits(&body) {
            Some(b) => Ok(Param::FConstant(b)),
            None => Err(MooParseError::InvalidParam(string_of_chars(t))),
        }
    } else if n > 0 && t[n - 1] == 'i' {
        let body = sub_chars(t, 0, n - 1);
        proof {
            assert(body@ =~= t@.drop_last());
        }
        match parse_signed_chars(&body) {
            Some(w) => Ok(Param::IConstant(w)),
            None => Err(MooParseError::InvalidParam(string_of_chars(t))),
        }
    } else if n > 0 && t[n - 1] == 'u' {
        let body = sub_chars(t, 0, n - 1);
        proof {
            assert(body@ =~= t@.drop_last());
        }
        match parse_unsigned_chars(&body) {
            Some(w) => Ok(Param::UConstant(w)),
            None => Err(MooParseError::InvalidParam(string_of_chars(t))),
        }
    } else {
        Err(MooParseError::InvalidParam(string_of_chars(t)))
    }
}


/// The pieces joined back with a separator between each pair: the inverse
/// of a split.
pub open spec fn join_with(pieces: Seq<Seq<char>>, sep: char) -> Seq<char>
    decreases pieces.len(),
{
    if pieces.len() == 0 {
        Seq::<char>::empty()
    } else if pieces.len() == 1 {
        pieces[0]
    } else {
        join_with(pieces.drop_last(), sep) + seq![sep] + pieces.last()
    }
}

/// The characters of one vector appended to another.
fn append_chars(r: &mut Vec<char>, piece: &Vec<char>)
    ensures
        final(r)@ == old(r)@ + piece@,
{
    let n = piece.len();
    let mut j: usize = 0;
    while j < n
        invariant
            0 <= j <= n,
            n == piece@.len(),
            r@ == old(r)@ + piece@.take(j as int),
        decreases n - j,
    {
        r.push(piece[j]);
        proof {
            assert((old(r)@ + piece@.take(j as int)).push(piece@[j as int]) =~= old(r)@
                + piece@.take(j + 1));
        }
        j = j + 1;
    }
    proof {
        assert(old(r)@ + piece@.take(n as int) =~= old(r)@ + piece@);
    }
}

/// The token pieces from an index on, joined with single spaces: the raw
/// remainder of a statement after its leading tokens.
fn join_tail(toks: &Vec<Vec<char>>, from: usize) -> (r: Vec<char>)
    requires
        from <= toks@.len(),
    ensures
        r@ == join_with(toks@.map_values(|p: Vec<char>| p@).skip(from as int), ' '),
{
    let ghost sub = toks@.map_values(|p: Vec<char>| p@).skip(from as int);
    let mut r: Vec<char> = Vec::new();
    let n = toks.len();
    let mut i: usize = from;
    proof {
        assert(sub.take(0) =~~= Seq::<Seq<char>>::empty());
    }
    while i < n
        invariant
            from <= i <= n,
            n == toks@.len(),
            sub == toks@.map_values(|p: Vec<char>| p@).skip(from as int),
            r@ == join_with(sub.take(i - from), ' '),
        decreases n - i,
    {
        if i > from {
            r.push(' ');
        }
        append_chars(&mut r, &toks[i]);
        proof {
            assert(sub.take(i - from + 1).drop_last() =~~= sub.take(i - from));
            assert(sub.take(i - from + 1).last() == toks@.map_values(|p: Vec<char>| p@)[i as int]);
            if i == from {
                assert(r@ =~= join_with(sub.take(i - from + 1), ' '));
            } else {
                assert(r@ =~= join_with(sub.take(i - from), ' ') + seq![' '] + sub[i - from]);
            }
        }
        i = i + 1;
    }
    proof {
        assert(sub.take(n - from) =~~= sub);
    }
    r
}

/// Two trailing operand tokens parsed, after the arity check: the token
/// list holds the mnemonic and exactly two operands.
pub open spec fn two_params_spec(toks: Seq<Seq<char>>) -> Result<(Param, Param), AbstractParseError> {
    if toks.len() != 3 {
        Err(AbstractParseError::InvalidParamAmount)
    } else {
        match parse_param_spec(toks[1]) {
            Err(e) => Err(e),
            Ok(p1) => match parse_param_spec(toks[2]) {
                Err(e) => Err(e),
                Ok(p2) => Ok((p1, p2)),
            },
        }
    }
}

/// Three trailing operand tokens parsed, after the arity check.
pub open spec fn three_params_spec(toks: Seq<Seq<char>>) -> Result<
    (Param, Param, Param),
    AbstractParseError,
> {
    if toks.len() != 4 {
        Err(AbstractParseError::InvalidParamAmount)
    } else {
        match parse_param_spec(toks[1]) {
            Err(e) => Err(e),
            Ok(p1) => match parse_param_spec(toks[2]) {
                Err(e) => Err(e),
                Ok(p2) => match parse_param_spec(toks[3]) {
                    Err(e) => Err(e),
                    Ok(p3) => Ok((p1, p2, p3)),
                },
            },
        }
    }
}

/// The two operands of a two-operand instruction, from the statement's
/// token list (mnemonic first).
pub fn parse_two_params(params: &Vec<&str>) -> (r: Result<(Param, Param), MooParseError>)
    ensures
        match r {
            Ok(ps) => two_params_spec(params@.map_values(|s: &str| s@)) == Ok::<
                (Param, Param),
                AbstractParseError,
            >(ps),
            Err(e) => two_params_spec(params@.map_values(|s: &str| s@)) == Err::<
                (Param, Param),
                AbstractParseError,
            >(e@),
        },
{
    if params.len() != 3 {
        return Err(MooParseError::InvalidParamAmount);
    }
    let p1 = match parse_param(params[1]) {
        Ok(p) => p,
        Err(e) => {
            return Err(e);
        },
    };
    let p2 = match parse_param(params[2]) {
        Ok(p) => p,
        Err(e) => {
            return Err(e);
        },
    };
    Ok((p1, p2))
}

/// The three operands of a three-operand instruction.
pub fn parse_three_params(params: &Vec<&str>) -> (r: Result<(Param, Param, Param), MooParseError>)
    ensures
        match r {
            Ok(ps) => three_params_spec(params@.map_values(|s: &str| s@)) == Ok::<
                (Param, Param, Param),
                AbstractParseError,
            >(ps),
            Err(e) => three_params_spec(params@.map_values(|s: &str| s@)) == Err::<
                (Param, Param, Param),
                AbstractParseError,
            >(e@),
        },
{
    if params.len() != 4 {
        return Err(MooParseError::InvalidParamAmount);
    }
    let p1 = match parse_param(params[1]) {
        Ok(p) => p,
        Err(e) => {
            return Err(e);
        },
    };
    let p2 = match parse_param(params[2]) {
        Ok(p) => p,
        Err(e) => {
            return Err(e);
        },
    };
    let p3 = match parse_param(params[3]) {
        Ok(p) => p,
        Err(e) => {
            return Err(e);
        },
    };
    Ok((p1, p2, p3))
}


/// The message a misplaced arithmetic destination is reported with.
pub open spec fn syntax_message(stmt: Seq<char>) -> Seq<char> {
    "Third parameter in \""@ + stmt + "\" should be a register"@
}

/// A three-operand arithmetic statement: three operands, the third of which
/// must classify as a register.
pub open spec fn three_op_spec(
    stmt: Seq<char>,
    toks: Seq<Seq<char>>,
    make: spec_fn(Param, Param, Param) -> AbstractCommand,
) -> Result<AbstractCommand, AbstractParseError> {
    match three_params_spec(toks) {
        Err(e) => Err(e),
        Ok(ps) => if ps.2 is Register {
            Ok(make(ps.0, ps.1, ps.2))
        } else {
            Err(AbstractParseError::InvalidSyntax(syntax_message(stmt)))
        },
    }
}

/// What one statement's instruction text parses to. The first token,
/// lowered, selects the mnemonic; arithmetic takes three operands (register
/// destination), compares and load two (load's destination a register),
/// the jump family the raw trimmed remainder as its label, and the
/// negative-test jumps one operand and then the remainder as their label.
pub open spec fn parse_instruction_spec(stmt: Seq<char>) -> Result<
    AbstractCommand,
    AbstractParseError,
> {
    let toks = split_on(stmt, ' ');
    let m = lower(trim(toks[0]));
    if m == "fadd"@ {
        three_op_spec(stmt, toks, |a: Param, b: Param, t: Param| AbstractCommand::FAdd(a, b, t))
    } else if m == "fsub"@ {
        three_op_spec(stmt, toks, |a: Param, b: Param, t: Param| AbstractCommand::FSub(a, b, t))
    } else if m == "fmul"@ {
        three_op_spec(stmt, toks, |a: Param, b: Param, t: Param| AbstractCommand::FMul(a, b, t))
    } else if m == "fdiv"@ {
        three_op_spec(stmt, toks, |a: Param, b: Param, t: Param| AbstractCommand::FDiv(a, b, t))
    } else if m == "iadd"@ {
        three_op_spec(stmt, toks, |a: Param, b: Param, t: Param| AbstractCommand::IAdd(a, b, t))
    } else if m == "isub"@ {
        three_op_spec(stmt, toks, |a: Param, b: Param, t: Param| AbstractCommand::ISub(a, b, t))
    } else if m == "imul"@ {
        three_op_spec(stmt, toks, |a: Param, b: Param, t: Param| AbstractCommand::IMul(a, b, t))
    } else if m == "idiv"@ {
        three_op_spec(stmt, toks, |a: Param, b: Param, t: Param| AbstractCommand::IDiv(a, b, t))
    } else if m == "uadd"@ {
        three_op_spec(stmt, toks, |a: Param, b: Param, t: Param| AbstractCommand::UAdd(a, b, t))
    } else if m == "usub"@ {
        three_op_spec(stmt, toks, |a: Param, b: Param, t: Param| AbstractCommand::USub(a, b, t))
    } else if m == "umul"@ {
        three_op_spec(stmt, toks, |a: Param, b: Param, t: Param| AbstractCommand::UMul(a, b, t))
    } else if m == "udiv"@ {
        three_op_spec(stmt, toks, |a: Param, b: Param, t: Param| AbstractCommand::UDiv(a, b, t))
    } else if m == "icmp"@ {
        match two_params_spec(toks) {
            Err(e) => Err(e),
            Ok(ps) => Ok(AbstractCommand::ICmp(ps.0, ps.1)),
        }
    } else if m == "ucmp"@ {
        match two_params_spec(toks) {
            Err(e) => Err(e),
            Ok(ps) => Ok(AbstractCommand::UCmp(ps.0, ps.1)),
        }
    } else if m == "fcmp"@ {
        match two_params_spec(toks) {
            Err(e) => Err(e),
            Ok(ps) => Ok(AbstractCommand::FCmp(ps.0, ps.1)),
        }
    } else if m == "load"@ {
        match two_params_spec(toks) {
            Err(e) => Err(e),
            Ok(ps) => if ps.1 is Register {
                Ok(AbstractCommand::Load(ps.0, ps.1))
            } else {
                Err(AbstractParseError::InvalidParam(stmt))
            },
        }
    } else if m == "jump"@ {
        Ok(AbstractCommand::Jump(trim(join_with(toks.skip(1), ' '))))
    } else if m == "jgre"@ {
        Ok(AbstractCommand::JGre(trim(join_with(toks.skip(1), ' '))))
    } else if m == "jless"@ {
        Ok(AbstractCommand::JLess(trim(join_with(toks.skip(1), ' '))))
    } else if m == "jeq"@ {
        Ok(AbstractCommand::JEq(trim(join_with(toks.skip(1), ' '))))
    } else if m == "jneq"@ {
        Ok(AbstractCommand::JNeq(trim(join_with(toks.skip(1), ' '))))
    } else if m == "jfneg"@ {
        if toks.len() < 2 {
            Err(AbstractParseError::InvalidParamAmount)
        } else {
            match parse_param_spec(toks[1]) {
                Err(e) => Err(e),
                Ok(p) => Ok(AbstractCommand::JFNeg(p, trim(join_with(toks.skip(2), ' ')))),
            }
        }
    } else if m == "jineg"@ {
        if toks.len() < 2 {
            Err(AbstractParseError::InvalidParamAmount)
        } else {
            match parse_param_spec(toks[1]) {
                Err(e) => Err(e),
                Ok(p) => Ok(AbstractCommand::JINeg(p, trim(join_with(toks.skip(2), ' ')))),
            }
        }
    } else {
        Err(AbstractParseError::CommandNotFound(stmt))
    }
}

/// One statement's instruction text parsed to a Command.
fn parse_instruction(instruction: &str) -> (r: Result<Command, MooParseError>)
    ensures
        match r {
            Ok(c) => parse_instruction_spec(instruction@) == Ok::<
                AbstractCommand,
                AbstractParseError,
            >(c@),
            Err(e) => parse_instruction_spec(instruction@) == Err::<
                AbstractCommand,
                AbstractParseError,
            >(e@),
        },
{
    let chars = chars_of(instruction);
    let toks = split_chars(&chars, ' ');
    let ghost tok_views = toks@.map_values(|p: Vec<char>| p@);
    let m = lower_chars(&trim_chars(&toks[0]));
    let arith = chars_eq_str(&m, "fadd") || chars_eq_str(&m, "fsub") || chars_eq_str(&m, "fmul")
        || chars_eq_str(&m, "fdiv") || chars_eq_str(&m, "iadd") || chars_eq_str(&m, "isub")
        || chars_eq_str(&m, "imul") || chars_eq_str(&m, "idiv") || chars_eq_str(&m, "uadd")
        || chars_eq_str(&m, "usub") || chars_eq_str(&m, "umul") || chars_eq_str(&m, "udiv");
    let compare = chars_eq_str(&m, "icmp") || chars_eq_str(&m, "ucmp") || chars_eq_str(&m, "fcmp");
    if arith {
        if toks.len() != 4 {
            return Err(MooParseError::InvalidParamAmount);
        }
        let t1 = string_of_chars(&toks[1]);
        let p1 = match parse_param(t1.as_str()) {
            Ok(p) => p,
            Err(e) => {
                return Err(e);
            },
        };
        let t2 = string_of_chars(&toks[2]);
        let p2 = match parse_param(t2.as_str()) {
            Ok(p) => p,
            Err(e) => {
                return Err(e);
            },
        };
        let t3 = string_of_chars(&toks[3]);
        let p3 = match parse_param(t3.as_str()) {
            Ok(p) => p,
            Err(e) => {
                return Err(e);
            },
        };
        if matches!(p3, Param::Register(_)) {
            Ok(
                if chars_eq_str(&m, "fadd") {
                    Command::FAdd(p1, p2, p3)
                } else if chars_eq_str(&m, "fsub") {
                    Command::FSub(p1, p2, p3)
                } else if chars_eq_str(&m, "fmul") {
                    Command::FMul(p1, p2, p3)
                } else if chars_eq_str(&m, "fdiv") {
                    Command::FDiv(p1, p2, p3)
                } else if chars_eq_str(&m, "iadd") {
                    Command::IAdd(p1, p2, p3)
                } else if chars_eq_str(&m, "isub") {
                    Command::ISub(p1, p2, p3)
                } else if chars_eq_str(&m, "imul") {
                    Command::IMul(p1, p2, p3)
                } else if chars_eq_str(&m, "idiv") {
                    Command::IDiv(p1, p2, p3)
                } else if chars_eq_str(&m, "uadd") {
                    Command::UAdd(p1, p2, p3)
                } else if chars_eq_str(&m, "usub") {
                    Command::USub(p1, p2, p3)
                } else if chars_eq_str(&m, "umul") {
                    Command::UMul(p1, p2, p3)
                } else {
                    Command::UDiv(p1, p2, p3)
                },
            )
        } else {
            let mut msg = "Third parameter in \"".to_owned();
            msg.append(instruction);
            msg.append("\" should be a register");
            Err(MooParseError::InvalidSyntax(msg))
        }
    } else if compare || chars_eq_str(&m, "load") {
        if toks.len() != 3 {
            return Err(MooParseError::InvalidParamAmount);
        }
        let t1 = string_of_chars(&toks[1]);
        let p1 = match parse_param(t1.as_str()) {
            Ok(p) => p,
            Err(e) => {
                return Err(e);
            },
        };
        let t2 = string_of_chars(&toks[2]);
        let p2 = match parse_param(t2.as_str()) {
            Ok(p) => p,
            Err(e) => {
                return Err(e);
            },
        };
        if chars_eq_str(&m, "icmp") {
            Ok(Command::ICmp(p1, p2))
        } else if chars_eq_str(&m, "ucmp") {
            Ok(Command::UCmp(p1, p2))
        } else if chars_eq_str(&m, "fcmp") {
            Ok(Command::FCmp(p1, p2))
        } else {
            if matches!(p2, Param::Register(_)) {
                Ok(Command::Load(p1, p2))
            } else {
                Err(MooParseError::InvalidParam(instruction.to_owned()))
            }
        }
    } else if chars_eq_str(&m, "jump") {
        Ok(Command::Jump(string_of_chars(&trim_chars(&join_tail(&toks, 1)))))
    } else if chars_eq_str(&m, "jgre") {
        Ok(Command::JGre(string_of_chars(&trim_chars(&join_tail(&toks, 1)))))
    } else if chars_eq_str(&m, "jless") {
        Ok(Command::JLess(string_of_chars(&trim_chars(&join_tail(&toks, 1)))))
    } else if chars_eq_str(&m, "jeq") {
        Ok(Command::JEq(string_of_chars(&trim_chars(&join_tail(&toks, 1)))))
    } else if chars_eq_str(&m, "jneq") {
        Ok(Command::JNeq(string_of_chars(&trim_chars(&join_tail(&toks, 1)))))
    } else if chars_eq_str(&m, "jfneg") {
        if toks.len() < 2 {
            Err(MooParseError::InvalidParamAmount)
        } else {
            let operand = string_of_chars(&toks[1]);
            match parse_param(operand.as_str()) {
                Err(e) => Err(e),
                Ok(p) => Ok(
                    Command::JFNeg(p, string_of_chars(&trim_chars(&join_tail(&toks, 2)))),
                ),
            }
        }
    } else if chars_eq_str(&m, "jineg") {
        if toks.len() < 2 {
            Err(MooParseError::InvalidParamAmount)
        } else {
            let operand = string_of_chars(&toks[1]);
            match parse_param(operand.as_str()) {
                Err(e) => Err(e),
                Ok(p) => Ok(
                    Command::JINeg(p, string_of_chars(&trim_chars(&join_tail(&toks, 2)))),
                ),
            }
        }
    } else {
        Err(MooParseError::CommandNotFound(instruction.to_owned()))
    }
}


/// Each piece trimmed.
pub open spec fn trimmed_pieces(ps: Seq<Seq<char>>) -> Seq<Seq<char>> {
    ps.map_values(|p: Seq<char>| trim(p))
}

/// The non-empty pieces, in order.
pub open spec fn nonempty_pieces(ps: Seq<Seq<char>>) -> Seq<Seq<char>> {
    ps.filter(|p: Seq<char>| p.len() != 0)
}

/// The statements of a source text: the ';'-separated pieces, trimmed, with
/// empty statements discarded.
pub open spec fn statement_texts(src: Seq<char>) -> Seq<Seq<char>> {
    nonempty_pieces(trimmed_pieces(split_on(src, ';')))
}

proof fn lemma_nonempty_push(xs: Seq<Seq<char>>, x: Seq<char>)
    ensures
        x.len() != 0 ==> nonempty_pieces(xs.push(x)) == nonempty_pieces(xs).push(x),
        x.len() == 0 ==> nonempty_pieces(xs.push(x)) == nonempty_pieces(xs),
{
    reveal(Seq::filter);
    assert(xs.push(x).drop_last() =~~= xs);
    assert(xs.push(x).last() == x);
}

/// A statement's optional label and its instruction text: pieces around a
/// single ':' are a label and an instruction, no ':' is an instruction
/// alone, and more than one ':' is a malformed statement.
pub open spec fn split_label_spec(stmt: Seq<char>) -> Result<
    (Option<Seq<char>>, Seq<char>),
    AbstractParseError,
> {
    let parts = split_on(stmt, ':');
    if parts.len() == 1 {
        Ok((None::<Seq<char>>, trim(parts[0])))
    } else if parts.len() == 2 {
        Ok((Some(trim(parts[0])), trim(parts[1])))
    } else {
        Err(AbstractParseError::InvalidLineStructure(stmt))
    }
}

/// What a statement list assembles to: each statement's instruction in
/// order, and one label entry, mapping the label text to the statement's
/// zero-based position, for each labeled statement. The first error wins.
pub open spec fn parse_statements_spec(stmts: Seq<Seq<char>>) -> Result<
    (Seq<AbstractCommand>, Seq<(Seq<char>, u64)>),
    AbstractParseError,
>
    decreases stmts.len(),
{
    if stmts.len() == 0 {
        Ok((Seq::<AbstractCommand>::empty(), Seq::<(Seq<char>, u64)>::empty()))
    } else {
        match parse_statements_spec(stmts.drop_last()) {
            Err(e) => Err(e),
            Ok(acc) => match split_label_spec(stmts.last()) {
                Err(e) => Err(e),
                Ok(li) => match parse_instruction_spec(li.1) {
                    Err(e) => Err(e),
                    Ok(c) => Ok(
                        (
                            acc.0.push(c),
                            match li.0 {
                                Some(name) => acc.1.push((name, acc.0.len() as u64)),
                                None => acc.1,
                            },
                        ),
                    ),
                },
            },
        }
    }
}

/// What a whole source text assembles to.
pub open spec fn parse_program_spec(src: Seq<char>) -> Result<
    (Seq<AbstractCommand>, Seq<(Seq<char>, u64)>),
    AbstractParseError,
> {
    parse_statements_spec(statement_texts(src))
}

/// An error met at any prefix of the statements is the whole list's result.
proof fn lemma_parse_statements_err_prefix(stmts: Seq<Seq<char>>, k: int)
    requires
        0 <= k <= stmts.len(),
        parse_statements_spec(stmts.take(k)) is Err,
    ensures
        parse_statements_spec(stmts) == parse_statements_spec(stmts.take(k)),
    decreases stmts.len() - k,
{
    if k < stmts.len() {
        assert(stmts.take(k + 1).drop_last() =~~= stmts.take(k));
        lemma_parse_statements_err_prefix(stmts, k + 1);
    } else {
        assert(stmts.take(k) =~~= stmts);
    }
}

/// Source text assembled to a Program, or the first parse error met.
pub fn parse_program_from_string(source: &str) -> (r: Result<Program, MooParseError>)
    ensures
        match r {
            Ok(p) => {
                &&& parse_program_spec(source@) is Ok
                &&& p.commands().map_values(|c: Command| c@) == parse_program_spec(source@)->Ok_0.0
                &&& p.label_map() == label_map_of_names(parse_program_spec(source@)->Ok_0.1)
            },
            Err(e) => parse_program_spec(source@) == Err::<
                (Seq<AbstractCommand>, Seq<(Seq<char>, u64)>),
                AbstractParseError,
            >(e@),
        },
{
    let chars = chars_of(source);
    let pieces = split_chars(&chars, ';');
    let ghost piece_views = pieces@.map_values(|p: Vec<char>| p@);
    let mut stmts: Vec<Vec<char>> = Vec::new();
    let np = pieces.len();
    let mut i: usize = 0;
    proof {
        assert(piece_views.take(0) =~~= Seq::<Seq<char>>::empty());
        assert(stmts@.map_values(|p: Vec<char>| p@) =~~= nonempty_pieces(
            trimmed_pieces(piece_views.take(0)),
        )) by {
            reveal(Seq::filter);
            assert(trimmed_pieces(piece_views.take(0)) =~~= Seq::<Seq<char>>::empty());
        }
    }
    while i < np
        invariant
            0 <= i <= np,
            np == pieces@.len(),
            piece_views == pieces@.map_values(|p: Vec<char>| p@),
            stmts@.map_values(|p: Vec<char>| p@) == nonempty_pieces(
                trimmed_pieces(piece_views.take(i as int)),
            ),
        decreases np - i,
    {
        let t = trim_chars(&pieces[i]);
        proof {
            assert(trimmed_pieces(piece_views.take(i + 1)) =~~= trimmed_pieces(
                piece_views.take(i as int),
            ).push(trim(piece_views[i as int])));
            lemma_nonempty_push(
                trimmed_pieces(piece_views.take(i as int)),
                trim(piece_views[i as int]),
            );
        }
        if t.len() > 0 {
            let ghost prev = stmts@;
            stmts.push(t);
            proof {
                assert(stmts@.map_values(|p: Vec<char>| p@) =~~= prev.map_values(
                    |p: Vec<char>| p@,
                ).push(trim(piece_views[i as int])));
            }
        }
        i = i + 1;
    }
    proof {
        assert(piece_views.take(np as int) =~~= piece_views);
    }
    let ghost stmt_views = stmts@.map_values(|p: Vec<char>| p@);
    let mut instructions: Vec<Command> = Vec::new();
    let mut labels: Vec<(String, u64)> = Vec::new();
    let ns = stmts.len();
    let mut k: usize = 0;
    proof {
        assert(stmt_views.take(0) =~~= Seq::<Seq<char>>::empty());
        assert(instructions@.map_values(|c: Command| c@) =~~= Seq::<AbstractCommand>::empty());
        assert(labels@.map_values(|e: (String, u64)| (e.0@, e.1)) =~~= Seq::<
            (Seq<char>, u64),
        >::empty());
    }
    while k < ns
        invariant
            0 <= k <= ns,
            ns == stmts@.len(),
            stmt_views == stmts@.map_values(|p: Vec<char>| p@),
            stmt_views == statement_texts(chars@),
            chars@ == source@,
            instructions@.len() == k,
            parse_statements_spec(stmt_views.take(k as int)) == Ok::<
                (Seq<AbstractCommand>, Seq<(Seq<char>, u64)>),
                AbstractParseError,
            >(
                (
                    instructions@.map_values(|c: Command| c@),
                    labels@.map_values(|e: (String, u64)| (e.0@, e.1)),
                ),
            ),
        decreases ns - k,
    {
        proof {
            assert(stmt_views.take(k + 1).drop_last() =~~= stmt_views.take(k as int));
            assert(stmt_views.take(k + 1).last() == stmt_views[k as int]);
        }
        let parts = split_chars(&stmts[k], ':');
        if parts.len() == 1 {
            let instr = trim_chars(&parts[0]);
            let instr_string = string_of_chars(&instr);
            match parse_instruction(instr_string.as_str()) {
                Err(e) => {
                    proof {
                        lemma_parse_statements_err_prefix(stmt_views, k + 1);
                    }
                    return Err(e);
                },
                Ok(c) => {
                    let ghost prev_i = instructions@;
                    instructions.push(c);
                    proof {
                        assert(instructions@.map_values(|c: Command| c@) =~~= prev_i.map_values(
                            |c: Command| c@,
                        ).push(c@));
                    }
                },
            }
        } else if parts.len() == 2 {
            let name = trim_chars(&parts[0]);
            let instr = trim_chars(&parts[1]);
            let instr_string = string_of_chars(&instr);
            match parse_instruction(instr_string.as_str()) {
                Err(e) => {
                    proof {
                        lemma_parse_statements_err_prefix(stmt_views, k + 1);
                    }
                    return Err(e);
                },
                Ok(c) => {
                    let ghost prev_i = instructions@;
                    let ghost prev_l = labels@;
                    labels.push((string_of_chars(&name), instructions.len() as u64));
                    instructions.push(c);
                    proof {
                        assert(instructions@.map_values(|c: Command| c@) =~~= prev_i.map_values(
                            |c: Command| c@,
                        ).push(c@));
                        assert(labels@.map_values(|e: (String, u64)| (e.0@, e.1)) =~~=
                        prev_l.map_values(|e: (String, u64)| (e.0@, e.1)).push(
                            (trim(split_on(stmt_views[k as int], ':')[0]), k as u64),
                        ));
                    }
                },
            }
        } else {
            proof {
                lemma_parse_statements_err_prefix(stmt_views, k + 1);
            }
            return Err(MooParseError::InvalidLineStructure(string_of_chars(&stmts[k])));
        }
        k = k + 1;
    }
    proof {
        assert(stmt_views.take(ns as int) =~~= stmt_views);
        crate::program::lemma_label_map_views(labels@);
    }
    Ok(Program::new(instructions, labels))
}

/// One label entry is sound for a statement list: its address is the
/// zero-based position of a statement decorated with exactly its text.
pub open spec fn label_entry_ok(stmts: Seq<Seq<char>>, e: (Seq<char>, u64)) -> bool {
    &&& e.1 < stmts.len()
    &&& split_on(stmts[e.1 as int], ':').len() == 2
    &&& trim(split_on(stmts[e.1 as int], ':')[0]) == e.0
}

/// For every statement list the assembler accepts: one instruction per
/// statement, and every label entry carries the zero-based position of the
/// statement it decorates, whose label text it is.
pub proof fn lemma_parse_statements_shape(stmts: Seq<Seq<char>>)
    requires
        stmts.len() <= u64::MAX,
        parse_statements_spec(stmts) is Ok,
    ensures
        parse_statements_spec(stmts)->Ok_0.0.len() == stmts.len(),
        forall|j: int|
            0 <= j < parse_statements_spec(stmts)->Ok_0.1.len() ==> label_entry_ok(
                stmts,
                #[trigger] parse_statements_spec(stmts)->Ok_0.1[j],
            ),
    decreases stmts.len(),
{
    if stmts.len() > 0 {
        let prefix = stmts.drop_last();
        lemma_parse_statements_shape(prefix);
        let acc = parse_statements_spec(prefix)->Ok_0;
        let full = parse_statements_spec(stmts)->Ok_0;
        assert forall|j: int| 0 <= j < full.1.len() implies label_entry_ok(
            stmts,
            #[trigger] full.1[j],
        ) by {
            if j < acc.1.len() {
                assert(label_entry_ok(prefix, acc.1[j]));
                assert(prefix[acc.1[j].1 as int] == stmts[acc.1[j].1 as int]);
                assert(full.1[j] == acc.1[j]);
            } else {
                assert(full.1[j] == (full.1.last()));
                assert(stmts[stmts.len() - 1] == stmts.last());
            }
        }
    }
}

/// The program-length-and-labels law, at the source level: the assembled
/// instruction count equals the number of non-empty statements, and every
/// label entry maps its text to the position of the statement it decorates.
pub proof fn lemma_program_shape(src: Seq<char>)
    requires
        statement_texts(src).len() <= u64::MAX,
        parse_program_spec(src) is Ok,
    ensures
        parse_program_spec(src)->Ok_0.0.len() == statement_texts(src).len(),
        forall|j: int|
            0 <= j < parse_program_spec(src)->Ok_0.1.len() ==> label_entry_ok(
                statement_texts(src),
                #[trigger] parse_program_spec(src)->Ok_0.1[j],
            ),
{
    lemma_parse_statements_shape(statement_texts(src));
}

/// A token that is neither a register reference nor a recognized
/// numeric-suffix literal never classifies: operand parsing yields the
/// invalid-operand error carrying the prepared token, and no value.
pub proof fn lemma_unrecognized_token_rejected(token: Seq<char>)
    requires
        ({
            let t = lower(trim(token));
            t.len() == 0 || (t[0] != 'r' && t.last() != 'f' && t.last() != 'i' && t.last() != 'u')
        }),
    ensures
        parse_param_spec(token) == Err::<Param, AbstractParseError>(
            AbstractParseError::InvalidParam(lower(trim(token))),
        ),
{
}



/// A separator-free sequence splits into itself alone.
pub proof fn lemma_split_no_sep(s: Seq<char>, sep: char)
    requires
        forall|i: int| 0 <= i < s.len() ==> s[i] != sep,
    ensures
        split_on(s, sep) == seq![s],
    decreases s.len(),
{
    if s.len() == 0 {
        assert(split_on(s, sep) =~~= seq![s]);
    } else {
        lemma_split_no_sep(s.drop_first(), sep);
        assert(split_on(s, sep) =~~= seq![s]);
    }
}

/// Splitting at an explicit separator after a separator-free prefix peels
/// the prefix off as the first piece.
pub proof fn lemma_split_concat(x: Seq<char>, y: Seq<char>, sep: char)
    requires
        forall|i: int| 0 <= i < x.len() ==> x[i] != sep,
    ensures
        split_on(x + seq![sep] + y, sep) == seq![x] + split_on(y, sep),
    decreases x.len(),
{
    lemma_split_len(y, sep);
    if x.len() == 0 {
        assert((x + seq![sep] + y).drop_first() =~= y);
        assert(split_on(x + seq![sep] + y, sep) =~~= seq![x] + split_on(y, sep));
    } else {
        assert((x + seq![sep] + y).drop_first() =~= x.drop_first() + seq![sep] + y);
        lemma_split_concat(x.drop_first(), y, sep);
        assert(split_on(x + seq![sep] + y, sep) =~~= seq![x] + split_on(y, sep));
    }
}

/// A sequence without leading or trailing whitespace is its own trim.
pub proof fn lemma_trim_identity(s: Seq<char>)
    requires
        s.len() == 0 || (!spec_is_space(s[0]) && !spec_is_space(s.last())),
    ensures
        trim(s) == s,
{
}

/// A sequence of characters the lowering leaves alone is its own lowering.
pub proof fn lemma_lower_identity(s: Seq<char>)
    requires
        forall|i: int| 0 <= i < s.len() ==> spec_lower_char(#[trigger] s[i]) == s[i],
    ensures
        lower(s) == s,
{
    assert(lower(s) =~= s);
}

/// An operand token of decimal digits with the unsigned suffix classifies
/// as exactly the unsigned constant the digits denote: the token-level half
/// of the wrapping law, joining the assembler to the machine-level lemmas.
pub proof fn lemma_unsigned_literal_token(d: Seq<char>, a: u64)
    requires
        d.len() > 0,
        all_digits(d),
        digits_val(d) == a,
    ensures
        parse_param_spec(d.push('u')) == Ok::<Param, AbstractParseError>(Param::UConstant(a)),
{
    let t = d.push('u');
    assert(trim_front(t) == t);
    assert(trim_back(t) == t);
    assert(lower(t) =~= t) by {
        assert forall|i: int| 0 <= i < t.len() implies lower(t)[i] == t[i] by {
            if i < d.len() {
                assert(spec_is_digit(t[i]));
            } else {
                assert(t[i] == 'u');
            }
        }
    }
    assert(t.drop_last() =~= d);
    assert(spec_is_digit(d[0]));
}


/// The mnemonic of each unsigned arithmetic operation.
pub open spec fn unsigned_mnemonic(op: ArithOp) -> Seq<char> {
    match op {
        ArithOp::Add => "uadd"@,
        ArithOp::Sub => "usub"@,
        ArithOp::Mul => "umul"@,
        ArithOp::Div => "udiv"@,
    }
}

/// The instruction an unsigned arithmetic statement over two constants and
/// register 0 assembles to.
pub open spec fn unsigned_arith_command(op: ArithOp, a: u64, b: u64) -> AbstractCommand {
    match op {
        ArithOp::Add => AbstractCommand::UAdd(
            Param::UConstant(a),
            Param::UConstant(b),
            Param::Register(0),
        ),
        ArithOp::Sub => AbstractCommand::USub(
            Param::UConstant(a),
            Param::UConstant(b),
            Param::Register(0),
        ),
        ArithOp::Mul => AbstractCommand::UMul(
            Param::UConstant(a),
            Param::UConstant(b),
            Param::Register(0),
        ),
        ArithOp::Div => AbstractCommand::UDiv(
            Param::UConstant(a),
            Param::UConstant(b),
            Param::Register(0),
        ),
    }
}

/// The source text `<op> <a>u <b>u r0;` for an unsigned operation and two
/// operands written as decimal digits.
pub open spec fn unsigned_arith_source(op: ArithOp, da: Seq<char>, db: Seq<char>) -> Seq<char> {
    unsigned_mnemonic(op) + seq![' '] + da + seq!['u', ' '] + db + seq!['u', ' ', 'r', '0', ';']
}

/// The statement an unsigned arithmetic instruction over two decimal
/// constants and register 0 is written as.
pub open spec fn unsigned_arith_statement(op: ArithOp, da: Seq<char>, db: Seq<char>) -> Seq<char> {
    unsigned_mnemonic(op) + seq![' '] + da.push('u') + seq![' '] + db.push('u') + seq![' ']
        + seq!['r', '0']
}

/// A statement of four space-free tokens splits into exactly those tokens.
proof fn lemma_four_tokens(m: Seq<char>, t1: Seq<char>, t2: Seq<char>, t3: Seq<char>)
    requires
        forall|i: int| 0 <= i < m.len() ==> m[i] != ' ',
        forall|i: int| 0 <= i < t1.len() ==> t1[i] != ' ',
        forall|i: int| 0 <= i < t2.len() ==> t2[i] != ' ',
        forall|i: int| 0 <= i < t3.len() ==> t3[i] != ' ',
    ensures
        split_on(m + seq![' '] + t1 + seq![' '] + t2 + seq![' '] + t3, ' ') == seq![m, t1, t2, t3],
{
    let stmt = m + seq![' '] + t1 + seq![' '] + t2 + seq![' '] + t3;
    assert(stmt =~= m + seq![' '] + (t1 + seq![' '] + (t2 + seq![' '] + t3)));
    lemma_split_no_sep(t3, ' ');
    lemma_split_concat(t2, t3, ' ');
    lemma_split_concat(t1, t2 + seq![' '] + t3, ' ');
    lemma_split_concat(m, t1 + seq![' '] + (t2 + seq![' '] + t3), ' ');
    assert(split_on(t2 + seq![' '] + t3, ' ') =~~= seq![t2, t3]);
    assert(split_on(t1 + seq![' '] + (t2 + seq![' '] + t3), ' ') =~~= seq![t1, t2, t3]);
    assert(split_on(stmt, ' ') =~~= seq![m, t1, t2, t3]);
}

/// The wrapping law's instruction half: the statement `<op> <a>u <b>u r0`
/// parses to exactly the one unsigned arithmetic instruction over the
/// written constants into register 0.
#[verifier::rlimit(100)]
pub proof fn lemma_unsigned_arith_statement(
    op: ArithOp,
    da: Seq<char>,
    db: Seq<char>,
    a: u64,
    b: u64,
)
    requires
        da.len() > 0,
        all_digits(da),
        digits_val(da) == a,
        db.len() > 0,
        all_digits(db),
        digits_val(db) == b,
    ensures
        parse_instruction_spec(unsigned_arith_statement(op, da, db)) == Ok::<
            AbstractCommand,
            AbstractParseError,
        >(unsigned_arith_command(op, a, b)),
{
    reveal_strlit("fadd");
    reveal_strlit("fsub");
    reveal_strlit("fmul");
    reveal_strlit("fdiv");
    reveal_strlit("iadd");
    reveal_strlit("isub");
    reveal_strlit("imul");
    reveal_strlit("idiv");
    reveal_strlit("uadd");
    reveal_strlit("usub");
    reveal_strlit("umul");
    reveal_strlit("udiv");
    let m = unsigned_mnemonic(op);
    let t1 = da.push('u');
    let t2 = db.push('u');
    let t3 = seq!['r', '0'];
    let stmt = unsigned_arith_statement(op, da, db);

    // Digits are ordinary characters: not whitespace, not separators, their
    // own lowering.
    assert forall|c: char| spec_is_digit(c) implies !spec_is_space(c) && c != ' '
        && spec_lower_char(c) == c by {}

    // Tokens: the mnemonic, the two operands, the destination.
    assert(forall|i: int| 0 <= i < t1.len() ==> t1[i] != ' ');
    assert(forall|i: int| 0 <= i < t2.len() ==> t2[i] != ' ');
    lemma_four_tokens(m, t1, t2, t3);
    let toks = split_on(stmt, ' ');
    assert(toks == seq![m, t1, t2, t3]);

    // The mnemonic is already trimmed and lowered.
    lemma_trim_identity(m);
    lemma_lower_identity(m);

    // The operand tokens classify as the written constants and register 0.
    lemma_unsigned_literal_token(da, a);
    lemma_unsigned_literal_token(db, b);
    assert(parse_param_spec(t3) == Ok::<Param, AbstractParseError>(Param::Register(0))) by {
        lemma_trim_identity(t3);
        lemma_lower_identity(t3);
        assert(t3.drop_first() =~= seq!['0']);
        assert(seq!['0'].drop_last() =~= Seq::<char>::empty());
        assert(digits_val(Seq::<char>::empty()) == 0);
        assert(digits_val(seq!['0']) == 0);
    }
}

/// A trimmed statement followed by the terminator is one non-empty
/// statement.
proof fn lemma_single_statement_text(stmt: Seq<char>)
    requires
        stmt.len() > 0,
        !spec_is_space(stmt[0]),
        !spec_is_space(stmt.last()),
        forall|i: int| 0 <= i < stmt.len() ==> stmt[i] != ';',
    ensures
        statement_texts(stmt + seq![';']) == seq![stmt],
{
    assert(stmt + seq![';'] =~= stmt + seq![';'] + Seq::<char>::empty());
    lemma_split_concat(stmt, Seq::<char>::empty(), ';');
    assert(split_on(stmt + seq![';'], ';') =~~= seq![stmt, Seq::<char>::empty()]);
    lemma_trim_identity(stmt);
    assert(trimmed_pieces(seq![stmt, Seq::<char>::empty()]) =~~= seq![stmt, Seq::<char>::empty()]);
    assert(statement_texts(stmt + seq![';']) =~~= seq![stmt]) by {
        reveal(Seq::filter);
        assert(nonempty_pieces(Seq::<Seq<char>>::empty()) =~~= Seq::<Seq<char>>::empty());
        assert(seq![stmt].drop_last() =~~= Seq::<Seq<char>>::empty());
        assert(nonempty_pieces(seq![stmt]) =~~= seq![stmt]);
        assert(seq![stmt, Seq::<char>::empty()].drop_last() =~~= seq![stmt]);
        assert(nonempty_pieces(seq![stmt, Seq::<char>::empty()]) =~~= seq![stmt]);
    }
}

/// A single unlabeled statement assembles to its one instruction and an
/// empty label table.
proof fn lemma_single_unlabeled_statement(stmt: Seq<char>, c: AbstractCommand)
    requires
        forall|i: int| 0 <= i < stmt.len() ==> stmt[i] != ':',
        parse_instruction_spec(trim(stmt)) == Ok::<AbstractCommand, AbstractParseError>(c),
    ensures
        parse_statements_spec(seq![stmt]) == Ok::<
            (Seq<AbstractCommand>, Seq<(Seq<char>, u64)>),
            AbstractParseError,
        >((seq![c], Seq::<(Seq<char>, u64)>::empty())),
{
    lemma_split_no_sep(stmt, ':');
    assert(seq![stmt].drop_last() =~~= Seq::<Seq<char>>::empty());
    assert(parse_statements_spec(Seq::<Seq<char>>::empty()) == Ok::<
        (Seq<AbstractCommand>, Seq<(Seq<char>, u64)>),
        AbstractParseError,
    >((Seq::<AbstractCommand>::empty(), Seq::<(Seq<char>, u64)>::empty())));
    assert(Seq::<AbstractCommand>::empty().push(c) =~~= seq![c]);
}

/// The wrapping law's assembler half, end to end over the source text: for
/// any unsigned values written as decimal digits, `<op> <a>u <b>u r0;`
/// assembles to exactly the one unsigned arithmetic instruction over those
/// constants into register 0, with an empty label table.
pub proof fn lemma_unsigned_arith_source(
    op: ArithOp,
    da: Seq<char>,
    db: Seq<char>,
    a: u64,
    b: u64,
)
    requires
        da.len() > 0,
        all_digits(da),
        digits_val(da) == a,
        db.len() > 0,
        all_digits(db),
        digits_val(db) == b,
    ensures
        parse_program_spec(unsigned_arith_source(op, da, db)) == Ok::<
            (Seq<AbstractCommand>, Seq<(Seq<char>, u64)>),
            AbstractParseError,
        >((seq![unsigned_arith_command(op, a, b)], Seq::<(Seq<char>, u64)>::empty())),
{
    reveal_strlit("uadd");
    reveal_strlit("usub");
    reveal_strlit("umul");
    reveal_strlit("udiv");
    let stmt = unsigned_arith_statement(op, da, db);
    assert(unsigned_arith_source(op, da, db) =~= stmt + seq![';']);

    // Digits are ordinary characters: not whitespace, not separators.
    assert forall|c: char| spec_is_digit(c) implies !spec_is_space(c) && c != ';' && c != ':' by {}
    assert(forall|i: int| 0 <= i < stmt.len() ==> stmt[i] != ';');
    assert(forall|i: int| 0 <= i < stmt.len() ==> stmt[i] != ':');
    assert(!spec_is_space(stmt[0]) && !spec_is_space(stmt.last()));

    lemma_single_statement_text(stmt);
    lemma_trim_identity(stmt);
    lemma_unsigned_arith_statement(op, da, db, a, b);
    lemma_single_unlabeled_statement(stmt, unsigned_arith_command(op, a, b));
}

/// The wrapping law in full: over a program whose commands view as the
/// assembled `uadd <a>u <b>u r0;` — what `parse_program_from_string`
/// returns for the text of `lemma_unsigned_arith_source` — one step from
/// counter 0 succeeds and stores a and b's sum modulo 2^64 in register 0.
pub proof fn lemma_wrapping_law(
    prog: Seq<Command>,
    labels: Map<Seq<char>, u64>,
    n_inputs: nat,
    n_outputs: nat,
    pre: MachineState,
    post: MachineState,
    r: Result<(), Fault>,
    a: u64,
    b: u64,
)
    requires
        prog.map_values(|c: Command| c@) == seq![unsigned_arith_command(ArithOp::Add, a, b)],
        pre.pc == 0,
        step_rel(prog, labels, n_inputs, n_outputs, pre, post, r),
    ensures
        r == Ok::<(), Fault>(()),
        post.regs == pre.regs.insert(0, (((a + b) as int) % 0x1_0000_0000_0000_0000) as u64),
        post.pc == 1,
        post.flag == pre.flag,
{
    assert(prog.map_values(|c: Command| c@).len() == 1);
    assert(prog.map_values(|c: Command| c@)[0] == prog[0]@);
    assert(prog[0]@ == unsigned_arith_command(ArithOp::Add, a, b));
    assert(prog[0] == Command::UAdd(Param::UConstant(a), Param::UConstant(b), Param::Register(0)));
    lemma_unsigned_add_wraps(prog, labels, n_inputs, n_outputs, pre, post, r, a, b, 0);
}

/// The division-fault law in full: over a program whose commands view as
/// the assembled `udiv <a>u 0u r0;`, one step from counter 0 aborts with a
/// division fault and alters no register and not the flag.
pub proof fn lemma_division_by_zero_law(
    prog: Seq<Command>,
    labels: Map<Seq<char>, u64>,
    n_inputs: nat,
    n_outputs: nat,
    pre: MachineState,
    post: MachineState,
    r: Result<(), Fault>,
    a: u64,
)
    requires
        prog.map_values(|c: Command| c@) == seq![unsigned_arith_command(ArithOp::Div, a, 0)],
        pre.pc == 0,
        step_rel(prog, labels, n_inputs, n_outputs, pre, post, r),
    ensures
        r == Err::<(), Fault>(Fault::DivisionByZero),
        post.regs == pre.regs,
        post.pc == 1,
        post.flag == pre.flag,
{
    assert(prog.map_values(|c: Command| c@).len() == 1);
    assert(prog.map_values(|c: Command| c@)[0] == prog[0]@);
    assert(prog[0]@ == unsigned_arith_command(ArithOp::Div, a, 0));
    assert(prog[0] == Command::UDiv(Param::UConstant(a), Param::UConstant(0), Param::Register(0)));
    lemma_unsigned_div_zero_faults(prog, labels, n_inputs, n_outputs, pre, post, r, a, 0);
}


/// The branch law in full, over command views: where the program is the
/// assembled `icmp <x>i <y>i; jless L;` (or with jgre) and x < y, two steps
/// from counter 0 succeed; under jless control lands on L's address, under
/// jgre it falls through, and no register is written.
pub proof fn lemma_branch_law_assembled(
    prog: Seq<Command>,
    labels: Map<Seq<char>, u64>,
    n_inputs: nat,
    n_outputs: nat,
    s0: MachineState,
    s1: MachineState,
    s2: MachineState,
    r1: Result<(), Fault>,
    r2: Result<(), Fault>,
    x: i64,
    y: i64,
    target: Seq<char>,
    less: bool,
)
    requires
        x < y,
        prog.map_values(|c: Command| c@) == seq![
            AbstractCommand::ICmp(Param::IConstant(x), Param::IConstant(y)),
            if less {
                AbstractCommand::JLess(target)
            } else {
                AbstractCommand::JGre(target)
            },
        ],
        labels.contains_key(target),
        s0.pc == 0,
        step_rel(prog, labels, n_inputs, n_outputs, s0, s1, r1),
        step_rel(prog, labels, n_inputs, n_outputs, s1, s2, r2),
    ensures
        r1 == Ok::<(), Fault>(()),
        r2 == Ok::<(), Fault>(()),
        less ==> s2.pc == labels[target],
        !less ==> s2.pc == 2,
        s2.regs == s0.regs,
{
    assert(prog.map_values(|c: Command| c@).len() == 2);
    assert(prog.map_values(|c: Command| c@)[0] == prog[0]@);
    assert(prog.map_values(|c: Command| c@)[1] == prog[1]@);
    assert(prog[0] == Command::ICmp(Param::IConstant(x), Param::IConstant(y)));
    if less {
        assert(prog[1] is JLess);
        let lbl = prog[1]->JLess_0;
        assert(lbl@ == target);
        lemma_branch_law(prog, labels, n_inputs, n_outputs, s0, s1, s2, r1, r2, x, y, lbl);
    } else {
        assert(prog[1] is JGre);
        let lbl = prog[1]->JGre_0;
        assert(lbl@ == target);
        lemma_branch_law(prog, labels, n_inputs, n_outputs, s0, s1, s2, r1, r2, x, y, lbl);
    }
}


/// An operand token of decimal digits (with an optional leading minus) and
/// the signed suffix classifies as exactly the signed constant it writes.
pub proof fn lemma_signed_literal_token(d: Seq<char>, negative: bool, x: i64)
    requires
        d.len() > 0,
        all_digits(d),
        negative ==> digits_val(d) <= 0x8000_0000_0000_0000 && x == -(digits_val(d) as int),
        !negative ==> digits_val(d) <= i64::MAX && x == digits_val(d),
    ensures
        parse_param_spec(
            (if negative {
                seq!['-'] + d
            } else {
                d
            }).push('i'),
        ) == Ok::<Param, AbstractParseError>(Param::IConstant(x)),
{
    let t = (if negative {
        seq!['-'] + d
    } else {
        d
    }).push('i');
    assert forall|c: char| spec_is_digit(c) implies !spec_is_space(c) && spec_lower_char(c)
        == c by {}
    lemma_trim_identity(t);
    lemma_lower_identity(t);
    if negative {
        assert(t.drop_last() =~= seq!['-'] + d);
        assert((seq!['-'] + d).drop_first() =~= d);
    } else {
        assert(t.drop_last() =~= d);
        assert(spec_is_digit(d[0]));
    }
}

/// A statement of three space-free tokens splits into exactly those tokens.
proof fn lemma_three_tokens(m: Seq<char>, t1: Seq<char>, t2: Seq<char>)
    requires
        forall|i: int| 0 <= i < m.len() ==> m[i] != ' ',
        forall|i: int| 0 <= i < t1.len() ==> t1[i] != ' ',
        forall|i: int| 0 <= i < t2.len() ==> t2[i] != ' ',
    ensures
        split_on(m + seq![' '] + t1 + seq![' '] + t2, ' ') == seq![m, t1, t2],
{
    let stmt = m + seq![' '] + t1 + seq![' '] + t2;
    assert(stmt =~= m + seq![' '] + (t1 + seq![' '] + t2));
    lemma_split_no_sep(t2, ' ');
    lemma_split_concat(t1, t2, ' ');
    lemma_split_concat(m, t1 + seq![' '] + t2, ' ');
    assert(split_on(t1 + seq![' '] + t2, ' ') =~~= seq![t1, t2]);
    assert(split_on(stmt, ' ') =~~= seq![m, t1, t2]);
}

/// The branch law's compare half: the statement `icmp <x>i <y>i` parses to
/// the signed compare of the written constants.
#[verifier::rlimit(100)]
pub proof fn lemma_signed_compare_statement(
    tx: Seq<char>,
    ty: Seq<char>,
    x: i64,
    y: i64,
)
    requires
        parse_param_spec(tx) == Ok::<Param, AbstractParseError>(Param::IConstant(x)),
        parse_param_spec(ty) == Ok::<Param, AbstractParseError>(Param::IConstant(y)),
        forall|i: int| 0 <= i < tx.len() ==> tx[i] != ' ',
        forall|i: int| 0 <= i < ty.len() ==> ty[i] != ' ',
    ensures
        parse_instruction_spec("icmp"@ + seq![' '] + tx + seq![' '] + ty) == Ok::<
            AbstractCommand,
            AbstractParseError,
        >(AbstractCommand::ICmp(Param::IConstant(x), Param::IConstant(y))),
{
    reveal_strlit("fadd");
    reveal_strlit("fsub");
    reveal_strlit("fmul");
    reveal_strlit("fdiv");
    reveal_strlit("iadd");
    reveal_strlit("isub");
    reveal_strlit("imul");
    reveal_strlit("idiv");
    reveal_strlit("uadd");
    reveal_strlit("usub");
    reveal_strlit("umul");
    reveal_strlit("udiv");
    reveal_strlit("icmp");
    let m = "icmp"@;
    lemma_three_tokens(m, tx, ty);
    lemma_trim_identity(m);
    lemma_lower_identity(m);
}

/// The branch law's jump half: the statement `jless L` (or `jgre L`) parses
/// to the flag-conditional jump naming that label.
#[verifier::rlimit(100)]
pub proof fn lemma_flag_jump_statement(target: Seq<char>, less: bool)
    requires
        target.len() > 0,
        !spec_is_space(target[0]),
        !spec_is_space(target.last()),
        forall|i: int| 0 <= i < target.len() ==> target[i] != ' ',
    ensures
        less ==> parse_instruction_spec("jless"@ + seq![' '] + target) == Ok::<
            AbstractCommand,
            AbstractParseError,
        >(AbstractCommand::JLess(target)),
        !less ==> parse_instruction_spec("jgre"@ + seq![' '] + target) == Ok::<
            AbstractCommand,
            AbstractParseError,
        >(AbstractCommand::JGre(target)),
{
    reveal_strlit("fadd");
    reveal_strlit("fsub");
    reveal_strlit("fmul");
    reveal_strlit("fdiv");
    reveal_strlit("iadd");
    reveal_strlit("isub");
    reveal_strlit("imul");
    reveal_strlit("idiv");
    reveal_strlit("uadd");
    reveal_strlit("usub");
    reveal_strlit("umul");
    reveal_strlit("udiv");
    reveal_strlit("icmp");
    reveal_strlit("ucmp");
    reveal_strlit("fcmp");
    reveal_strlit("load");
    reveal_strlit("jump");
    reveal_strlit("jgre");
    reveal_strlit("jless");
    let m = if less {
        "jless"@
    } else {
        "jgre"@
    };
    let stmt = m + seq![' '] + target;
    lemma_split_concat(m, target, ' ');
    lemma_split_no_sep(target, ' ');
    let toks = split_on(stmt, ' ');
    assert(toks =~~= seq![m, target]);
    lemma_trim_identity(m);
    lemma_lower_identity(m);
    assert(toks.skip(1) =~~= seq![target]);
    assert(join_with(seq![target], ' ') == target);
    lemma_trim_identity(target);
}


/// One more unlabeled statement appends its instruction and no label entry.
proof fn lemma_push_unlabeled_statement(
    ss: Seq<Seq<char>>,
    stmt: Seq<char>,
    c: AbstractCommand,
    cmds: Seq<AbstractCommand>,
    entries: Seq<(Seq<char>, u64)>,
)
    requires
        parse_statements_spec(ss) == Ok::<
            (Seq<AbstractCommand>, Seq<(Seq<char>, u64)>),
            AbstractParseError,
        >((cmds, entries)),
        forall|i: int| 0 <= i < stmt.len() ==> stmt[i] != ':',
        parse_instruction_spec(trim(stmt)) == Ok::<AbstractCommand, AbstractParseError>(c),
    ensures
        parse_statements_spec(ss.push(stmt)) == Ok::<
            (Seq<AbstractCommand>, Seq<(Seq<char>, u64)>),
            AbstractParseError,
        >((cmds.push(c), entries)),
{
    lemma_split_no_sep(stmt, ':');
    assert(ss.push(stmt).drop_last() =~~= ss);
}

/// The branch law's assembler half, end to end over the source text: for
/// signed constants written as operand tokens, `icmp <x>i <y>i; jless L;`
/// (or with jgre) assembles to exactly the compare followed by the
/// conditional jump naming L, with an empty label table.
#[verifier::rlimit(100)]
pub proof fn lemma_branch_source(
    tx: Seq<char>,
    ty: Seq<char>,
    x: i64,
    y: i64,
    target: Seq<char>,
    less: bool,
)
    requires
        parse_param_spec(tx) == Ok::<Param, AbstractParseError>(Param::IConstant(x)),
        parse_param_spec(ty) == Ok::<Param, AbstractParseError>(Param::IConstant(y)),
        tx.len() > 0,
        ty.len() > 0,
        target.len() > 0,
        forall|i: int|
            0 <= i < tx.len() ==> !spec_is_space(#[trigger] tx[i]) && tx[i] != ';' && tx[i] != ':',
        forall|i: int|
            0 <= i < ty.len() ==> !spec_is_space(#[trigger] ty[i]) && ty[i] != ';' && ty[i] != ':',
        forall|i: int|
            0 <= i < target.len() ==> !spec_is_space(#[trigger] target[i]) && target[i] != ';'
                && target[i] != ':',
    ensures
        parse_program_spec(
            "icmp"@ + seq![' '] + tx + seq![' '] + ty + seq![';'] + (if less {
                "jless"@
            } else {
                "jgre"@
            }) + seq![' '] + target + seq![';'],
        ) == Ok::<(Seq<AbstractCommand>, Seq<(Seq<char>, u64)>), AbstractParseError>(
            (
                seq![
                    AbstractCommand::ICmp(Param::IConstant(x), Param::IConstant(y)),
                    if less {
                        AbstractCommand::JLess(target)
                    } else {
                        AbstractCommand::JGre(target)
                    },
                ],
                Seq::<(Seq<char>, u64)>::empty(),
            ),
        ),
{
    reveal_strlit("icmp");
    reveal_strlit("jless");
    reveal_strlit("jgre");
    let jm = if less {
        "jless"@
    } else {
        "jgre"@
    };
    let stmt1 = "icmp"@ + seq![' '] + tx + seq![' '] + ty;
    let stmt2 = jm + seq![' '] + target;
    let src = "icmp"@ + seq![' '] + tx + seq![' '] + ty + seq![';'] + jm + seq![' '] + target
        + seq![';'];

    // Two non-empty, unlabeled statements.
    assert(src =~= stmt1 + seq![';'] + (stmt2 + seq![';'] + Seq::<char>::empty()));
    assert(forall|i: int| 0 <= i < stmt1.len() ==> stmt1[i] != ';');
    assert(forall|i: int| 0 <= i < stmt2.len() ==> stmt2[i] != ';');
    lemma_split_concat(stmt2, Seq::<char>::empty(), ';');
    lemma_split_concat(stmt1, stmt2 + seq![';'] + Seq::<char>::empty(), ';');
    assert(split_on(src, ';') =~~= seq![stmt1, stmt2, Seq::<char>::empty()]);
    lemma_trim_identity(stmt1);
    lemma_trim_identity(stmt2);
    assert(trimmed_pieces(seq![stmt1, stmt2, Seq::<char>::empty()]) =~~= seq![
        stmt1,
        stmt2,
        Seq::<char>::empty(),
    ]);
    assert(statement_texts(src) =~~= seq![stmt1, stmt2]) by {
        reveal(Seq::filter);
        assert(nonempty_pieces(Seq::<Seq<char>>::empty()) =~~= Seq::<Seq<char>>::empty());
        assert(seq![stmt1].drop_last() =~~= Seq::<Seq<char>>::empty());
        assert(nonempty_pieces(seq![stmt1]) =~~= seq![stmt1]);
        assert(seq![stmt1, stmt2].drop_last() =~~= seq![stmt1]);
        assert(nonempty_pieces(seq![stmt1, stmt2]) =~~= seq![stmt1, stmt2]);
        assert(seq![stmt1, stmt2, Seq::<char>::empty()].drop_last() =~~= seq![stmt1, stmt2]);
        assert(nonempty_pieces(seq![stmt1, stmt2, Seq::<char>::empty()]) =~~= seq![stmt1, stmt2]);
    }

    // Each statement parses to its instruction.
    let c1 = AbstractCommand::ICmp(Param::IConstant(x), Param::IConstant(y));
    let c2 = if less {
        AbstractCommand::JLess(target)
    } else {
        AbstractCommand::JGre(target)
    };
    lemma_signed_compare_statement(tx, ty, x, y);
    lemma_flag_jump_statement(target, less);
    assert(forall|i: int| 0 <= i < stmt1.len() ==> stmt1[i] != ':');
    assert(forall|i: int| 0 <= i < stmt2.len() ==> stmt2[i] != ':');
    lemma_single_unlabeled_statement(stmt1, c1);
    lemma_push_unlabeled_statement(
        seq![stmt1],
        stmt2,
        c2,
        seq![c1],
        Seq::<(Seq<char>, u64)>::empty(),
    );
    assert(seq![stmt1].push(stmt2) =~~= seq![stmt1, stmt2]);
    assert(seq![c1].push(c2) =~~= seq![c1, c2]);
}

} // verus!
