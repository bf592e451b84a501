//! The line parser: comment and address directive, mnemonic, operands, and
//! their encoding into an opcode followed by nibbles.
use vstd::prelude::*;
use vstd::string::StringExecFns;
pub use crate::instruction::{ArgumentType, Instruction, Parameter};
use crate::instruction::{lookup_chars, table};
use crate::utils::{
    address_chars, address_value, dec_to_hex_push, hex_digit_value, hex_pair, hex_prefixed_chars,
    hex_val, is_address_syntax, is_hex_prefixed, is_register_syntax, is_space, is_space_char,
    register_nibble, register_value, chars_of,
};

verus! {

/// Relies on `String::push`: the character is appended at the end.
pub assume_specification[ String::push ](s: &mut String, ch: char)
    ensures
        final(s)@ == old(s)@.push(ch),
;

/// The encoding of one line: the opcode, then one nibble per element.
#[derive(Debug)]
pub struct ParserResult {
    pub bits: Vec<u8>,
    pub address: Option<u8>,
}

/// Why a line was refused; the text says what was wrong.
#[derive(Debug)]
pub enum ParserError {
    InvalidFormat(String),
    OutOfRange(String),
}

impl ParserError {
    /// The message for this error, as it is shown to a user.
    pub fn message(&self) -> (r: String)
        ensures
            r@ == match self {
                ParserError::InvalidFormat(d) => "Invalid format: "@ + d@,
                ParserError::OutOfRange(d) => "Out of range: "@ + d@,
            },
    {
        match self {
            ParserError::InvalidFormat(d) => String::from_str("Invalid format: ").concat(d.as_str()),
            ParserError::OutOfRange(d) => String::from_str("Out of range: ").concat(d.as_str()),
        }
    }
}

/// Index of the first `c` at or after `i`, or the length when there is none.
pub open spec fn first_index(s: Seq<char>, c: char, i: int) -> int
    decreases s.len() - i,
{
    if i >= s.len() {
        s.len() as int
    } else if s[i] == c {
        i
    } else {
        first_index(s, c, i + 1)
    }
}

/// Index of the first white space at or after `i`, or the length.
pub open spec fn first_space(s: Seq<char>, i: int) -> int
    decreases s.len() - i,
{
    if i >= s.len() {
        s.len() as int
    } else if is_space(s[i]) {
        i
    } else {
        first_space(s, i + 1)
    }
}

/// Index of the first character at or after `i` that is not white space.
pub open spec fn skip_front(s: Seq<char>, i: int) -> int
    decreases s.len() - i,
{
    if i >= s.len() {
        s.len() as int
    } else if is_space(s[i]) {
        skip_front(s, i + 1)
    } else {
        i
    }
}

/// End of `s.subrange(0, j)` once its trailing white space is dropped.
pub open spec fn skip_back(s: Seq<char>, j: int) -> int
    decreases j,
{
    if j <= 0 {
        0
    } else if is_space(s[j - 1]) {
        skip_back(s, j - 1)
    } else {
        j
    }
}

/// `s` without leading and trailing white space.
pub open spec fn trim(s: Seq<char>) -> Seq<char> {
    let a = skip_front(s, 0);
    let b = skip_back(s, s.len() as int);
    if a < b {
        s.subrange(a, b)
    } else {
        Seq::empty()
    }
}

/// `s` up to its first `;`.
pub open spec fn strip_comment(s: Seq<char>) -> Seq<char> {
    s.subrange(0, first_index(s, ';', 0))
}

/// The pieces of `s.subrange(start, ..)` between commas, scanning from `i`.
pub open spec fn split_from(s: Seq<char>, i: int, start: int) -> Seq<Seq<char>>
    decreases s.len() - i,
{
    if i >= s.len() {
        seq![s.subrange(start, s.len() as int)]
    } else if s[i] == ',' {
        seq![s.subrange(start, i)] + split_from(s, i + 1, i + 1)
    } else {
        split_from(s, i + 1, start)
    }
}

/// The comma-separated operands of `s`, each trimmed.
pub open spec fn operands(s: Seq<char>) -> Seq<Seq<char>> {
    split_from(s, 0, 0).map_values(|p: Seq<char>| trim(p))
}

/// A byte as two nibbles, high first.
pub open spec fn byte_nibbles(v: nat) -> Seq<u8> {
    seq![(v / 16) as u8, (v % 16) as u8]
}

/// What one operand text encodes to in a slot of type `t`; `None` when it
/// does not have that slot's syntax.
pub open spec fn encode_slot(t: ArgumentType, s: Seq<char>) -> Option<Seq<u8>> {
    match t {
        ArgumentType::Register => if is_register_syntax(s) {
            Some(seq![register_nibble(s) as u8])
        } else {
            None
        },
        ArgumentType::MemoryAddress => if is_address_syntax(s) {
            Some(byte_nibbles(address_value(s)))
        } else {
            None
        },
        ArgumentType::Hexadecimal => if is_hex_prefixed(s, 2) {
            Some(byte_nibbles(hex_pair(s, 2)))
        } else {
            None
        },
        ArgumentType::SingleDigitHexadecimal => if is_hex_prefixed(s, 1) {
            Some(seq![hex_val(s[2]) as u8])
        } else {
            None
        },
        ArgumentType::ZeroPadding => Some(seq![0u8]),
    }
}

/// The operand the user wrote for slot `i`, or the empty text past the last.
pub open spec fn given(ops: Seq<Seq<char>>, i: int) -> Seq<char> {
    if i < ops.len() {
        ops[i]
    } else {
        Seq::empty()
    }
}

/// Encodes slots `i..` of `schema`. `buf` holds an operand that a padding
/// slot pushed one slot to the right: when it is not empty it is used in
/// place of the operand given for this slot, which is kept for the next.
pub open spec fn walk(schema: Seq<ArgumentType>, ops: Seq<Seq<char>>, i: int, buf: Seq<char>) -> Option<
    Seq<u8>,
>
    decreases schema.len() - i,
{
    if i < 0 || i >= schema.len() {
        Some(Seq::empty())
    } else {
        let g = given(ops, i);
        let cand = if buf.len() > 0 {
            buf
        } else {
            g
        };
        let next = if schema[i] == ArgumentType::ZeroPadding {
            cand
        } else if buf.len() > 0 {
            g
        } else {
            buf
        };
        match encode_slot(schema[i], cand) {
            None => None,
            Some(n) => match walk(schema, ops, i + 1, next) {
                None => None,
                Some(rest) => Some(n + rest),
            },
        }
    }
}

/// `o` with `a` put in front of what it holds.
pub open spec fn after(a: Seq<u8>, o: Option<Seq<u8>>) -> Option<Seq<u8>> {
    match o {
        Some(r) => Some(a + r),
        None => None,
    }
}

/// What a line comes to.
pub enum LineOutcome {
    /// Nothing to encode.
    Blank,
    Encoded { bits: Seq<u8>, address: Option<u8> },
    UnknownMnemonic { mnemonic: Seq<char> },
    BadFormat,
    TooFar,
}

/// The line without its comment, trimmed.
pub open spec fn code_part(line: Seq<char>) -> Seq<char> {
    trim(strip_comment(line))
}

pub open spec fn has_directive(line: Seq<char>) -> bool {
    let t = code_part(line);
    first_index(t, ':', 0) < t.len()
}

/// The text before the first `:`, trimmed.
pub open spec fn directive(line: Seq<char>) -> Seq<char> {
    let t = code_part(line);
    trim(t.subrange(0, first_index(t, ':', 0)))
}

/// The instruction text: what follows the directive, trimmed.
pub open spec fn body(line: Seq<char>) -> Seq<char> {
    let t = code_part(line);
    if has_directive(line) {
        trim(t.subrange(first_index(t, ':', 0) + 1, t.len() as int))
    } else {
        t
    }
}

pub open spec fn mnemonic(b: Seq<char>) -> Seq<char> {
    b.subrange(0, first_space(b, 0))
}

/// The operand text: what follows the first white space, trimmed.
pub open spec fn argument_text(b: Seq<char>) -> Seq<char> {
    let w = first_space(b, 0);
    if w < b.len() {
        trim(b.subrange(w + 1, b.len() as int))
    } else {
        Seq::empty()
    }
}

/// No operand text for an instruction without operands; otherwise exactly
/// as many operands as the instruction takes.
pub open spec fn arity_ok(args: Seq<char>, ops: Seq<Seq<char>>, count: nat) -> bool {
    if args.len() == 0 {
        count == 0
    } else {
        ops.len() == count
    }
}

pub open spec fn encode_body(b: Seq<char>, address: Option<u8>) -> LineOutcome {
    let m = mnemonic(b);
    let args = argument_text(b);
    let ops = operands(args);
    match table(m) {
        None => LineOutcome::UnknownMnemonic { mnemonic: m },
        Some(ins) => if !arity_ok(args, ops, ins.count) {
            LineOutcome::BadFormat
        } else {
            match walk(ins.schema, ops, 0, Seq::empty()) {
                None => LineOutcome::BadFormat,
                Some(r) => LineOutcome::Encoded { bits: seq![ins.code as u8] + r, address },
            }
        },
    }
}

/// What `line` comes to in an address space of `limit` bytes.
pub open spec fn parse_line(line: Seq<char>, limit: nat) -> LineOutcome {
    let d = directive(line);
    if has_directive(line) && !is_hex_prefixed(d, 2) {
        LineOutcome::BadFormat
    } else if has_directive(line) && hex_pair(d, 2) >= limit {
        LineOutcome::TooFar
    } else if body(line).len() == 0 {
        LineOutcome::Blank
    } else {
        encode_body(
            body(line),
            if has_directive(line) {
                Some(hex_pair(d, 2) as u8)
            } else {
                None
            },
        )
    }
}

pub open spec fn unknown_message(m: Seq<char>) -> Seq<char> {
    "Instruction \""@ + m + "\" is not valid."@
}

/// `r` is what the parser returns for outcome `o`.
pub open spec fn reports(r: Result<Option<ParserResult>, ParserError>, o: LineOutcome) -> bool {
    match o {
        LineOutcome::Blank => r matches Ok(None),
        LineOutcome::Encoded { bits, address } => r matches Ok(Some(p)) && p.bits@ == bits
            && p.address == address,
        LineOutcome::UnknownMnemonic { mnemonic } => r matches Err(ParserError::InvalidFormat(d))
            && d@ == unknown_message(mnemonic),
        LineOutcome::BadFormat => r matches Err(ParserError::InvalidFormat(_)),
        LineOutcome::TooFar => r matches Err(ParserError::OutOfRange(_)),
    }
}

/// The characters of `v` from `a` up to `b`.
pub fn sub_chars(v: &Vec<char>, a: usize, b: usize) -> (r: Vec<char>)
    requires
        a <= b <= v@.len(),
    ensures
        r@ == v@.subrange(a as int, b as int),
{
    let mut r: Vec<char> = Vec::new();
    let mut i: usize = a;
    while i < b
        invariant
            a <= i <= b,
            b <= v@.len(),
            r@ == v@.subrange(a as int, i as int),
        decreases b - i,
    {
        r.push(v[i]);
        i = i + 1;
    }
    r
}

pub fn find_char(v: &Vec<char>, c: char) -> (r: usize)
    ensures
        r as int == first_index(v@, c, 0),
        r <= v@.len(),
{
    let mut i: usize = 0;
    while i < v.len() && v[i] != c
        invariant
            i <= v@.len(),
            first_index(v@, c, 0) == first_index(v@, c, i as int),
        decreases v@.len() - i,
    {
        i = i + 1;
    }
    i
}

pub fn find_space(v: &Vec<char>) -> (r: usize)
    ensures
        r as int == first_space(v@, 0),
        r <= v@.len(),
{
    let mut i: usize = 0;
    while i < v.len() && !is_space_char(v[i])
        invariant
            i <= v@.len(),
            first_space(v@, 0) == first_space(v@, i as int),
        decreases v@.len() - i,
    {
        i = i + 1;
    }
    i
}

pub fn trim_chars(v: &Vec<char>) -> (r: Vec<char>)
    ensures
        r@ == trim(v@),
{
    let mut a: usize = 0;
    while a < v.len() && is_space_char(v[a])
        invariant
            a <= v@.len(),
            skip_front(v@, 0) == skip_front(v@, a as int),
        decreases v@.len() - a,
    {
        a = a + 1;
    }
    let mut b: usize = v.len();
    while b > 0 && is_space_char(v[b - 1])
        invariant
            b <= v@.len(),
            skip_back(v@, v@.len() as int) == skip_back(v@, b as int),
        decreases b,
    {
        b = b - 1;
    }
    if a < b {
        sub_chars(v, a, b)
    } else {
        Vec::new()
    }
}

/// The comma-separated operands of `v`, each trimmed.
pub fn split_operands(v: &Vec<char>) -> (r: Vec<Vec<char>>)
    ensures
        r@.len() == operands(v@).len(),
        forall|j: int| 0 <= j < r@.len() ==> #[trigger] r@[j]@ == operands(v@)[j],
{
    let mut r: Vec<Vec<char>> = Vec::new();
    let ghost pieces: Seq<Seq<char>> = Seq::empty();
    let mut start: usize = 0;
    let mut i: usize = 0;
    while i < v.len()
        invariant
            start <= i <= v@.len(),
            split_from(v@, 0, 0) == pieces + split_from(v@, i as int, start as int),
            r@.len() == pieces.len(),
            forall|j: int| 0 <= j < r@.len() ==> #[trigger] r@[j]@ == trim(pieces[j]),
        decreases v@.len() - i,
    {
        if v[i] == ',' {
            let p = sub_chars(v, start, i);
            let t = trim_chars(&p);
            proof {
                assert(pieces + split_from(v@, i as int, start as int) =~= pieces.push(p@)
                    + split_from(v@, i + 1, i + 1));
                pieces = pieces.push(p@);
            }
            r.push(t);
            start = i + 1;
        }
        i = i + 1;
    }
    let p = sub_chars(v, start, v.len());
    let t = trim_chars(&p);
    proof {
        pieces = pieces.push(p@);
        assert(split_from(v@, 0, 0) =~= pieces);
    }
    r.push(t);
    r
}

/// Appends what operand `s` encodes to in a slot of type `t`; returns false,
/// appending nothing, when `s` does not have that slot's syntax.
pub fn encode_operand(t: ArgumentType, s: &Vec<char>, out: &mut Vec<u8>) -> (ok: bool)
    ensures
        ok == encode_slot(t, s@) is Some,
        ok ==> final(out)@ == old(out)@ + encode_slot(t, s@)->0,
        !ok ==> final(out)@ == old(out)@,
{
    match t {
        ArgumentType::Register => match register_value(s) {
            Some(n) => {
                out.push(n % 16);
                assert(out@ =~= old(out)@ + encode_slot(t, s@)->0);
                true
            },
            None => false,
        },
        ArgumentType::MemoryAddress => {
            if address_chars(s) {
                let ghost b = s@.subrange(1, s@.len() - 1);
                assert(is_hex_char_at(b, 2) && is_hex_char_at(b, 3));
                let byte = hex_digit_value(s[3]) * 16 + hex_digit_value(s[4]);
                dec_to_hex_push(byte, out);
                assert(out@ =~= old(out)@ + encode_slot(t, s@)->0);
                true
            } else {
                false
            }
        },
        ArgumentType::Hexadecimal => {
            if hex_prefixed_chars(s, 2) {
                assert(is_hex_char_at(s@, 2) && is_hex_char_at(s@, 3));
                let byte = hex_digit_value(s[2]) * 16 + hex_digit_value(s[3]);
                dec_to_hex_push(byte, out);
                assert(out@ =~= old(out)@ + encode_slot(t, s@)->0);
                true
            } else {
                false
            }
        },
        ArgumentType::SingleDigitHexadecimal => {
            if hex_prefixed_chars(s, 1) {
                assert(is_hex_char_at(s@, 2));
                out.push(hex_digit_value(s[2]));
                assert(out@ =~= old(out)@ + encode_slot(t, s@)->0);
                true
            } else {
                false
            }
        },
        ArgumentType::ZeroPadding => {
            out.push(0);
            assert(out@ =~= old(out)@ + encode_slot(t, s@)->0);
            true
        },
    }
}

pub open spec fn is_hex_char_at(s: Seq<char>, i: int) -> bool {
    crate::utils::is_hex_char(s[i])
}

/// A `String` holding the characters of `v`.
pub fn string_of(v: &Vec<char>) -> (r: String)
    ensures
        r@ == v@,
{
    let mut r = String::new();
    let mut i: usize = 0;
    while i < v.len()
        invariant
            i <= v@.len(),
            r@ == v@.subrange(0, i as int),
        decreases v@.len() - i,
    {
        r.push(v[i]);
        assert(r@ =~= v@.subrange(0, i + 1));
        i = i + 1;
    }
    assert(r@ =~= v@);
    r
}

/// A format error whose text is `pre`, then `m`, then `post`.
fn naming(pre: &str, m: &Vec<char>, post: &str) -> (r: ParserError)
    ensures
        r matches ParserError::InvalidFormat(d) && d@ == pre@ + m@ + post@,
{
    let mut d = String::from_str(pre);
    d.append(string_of(m).as_str());
    d.append(post);
    ParserError::InvalidFormat(d)
}

/// Walks the slots of `ins`, appending the encoding of each to `out`.
fn encode_operands(ins: &Instruction, ops: &Vec<Vec<char>>, out: &mut Vec<u8>) -> (ok: bool)
    ensures
        ok == walk(ins@.schema, ops@.map_values(|o: Vec<char>| o@), 0, Seq::empty()) is Some,
        ok ==> final(out)@ == old(out)@ + walk(
            ins@.schema,
            ops@.map_values(|o: Vec<char>| o@),
            0,
            Seq::empty(),
        )->0,
{
    let ghost schema = ins@.schema;
    let ghost opv = ops@.map_values(|o: Vec<char>| o@);
    let ghost start = out@;
    let empty: Vec<char> = Vec::new();
    let mut buf: Vec<char> = Vec::new();
    let mut i: usize = 0;
    let n = ins.parameter.args.len();
    while i < n
        invariant
            n == schema.len(),
            schema == ins@.schema,
            opv == ops@.map_values(|o: Vec<char>| o@),
            opv.len() == ops@.len(),
            empty@.len() == 0,
            i <= n,
            after(start, walk(schema, opv, 0, Seq::empty())) == after(
                out@,
                walk(schema, opv, i as int, buf@),
            ),
        decreases n - i,
    {
        let g: &Vec<char> = if i < ops.len() {
            &ops[i]
        } else {
            &empty
        };
        assert(g@ == given(opv, i as int));
        let t = ins.parameter.args[i];
        let use_buf = buf.len() > 0;
        let cand: Vec<char> = if use_buf {
            sub_chars(&buf, 0, buf.len())
        } else {
            sub_chars(g, 0, g.len())
        };
        assert(buf@.subrange(0, buf@.len() as int) =~= buf@);
        assert(g@.subrange(0, g@.len() as int) =~= g@);
        let ghost w = walk(schema, opv, i as int, buf@);
        let ghost before = out@;
        if !encode_operand(t, &cand, out) {
            return false;
        }
        buf = if t == ArgumentType::ZeroPadding {
            cand
        } else if use_buf {
            sub_chars(g, 0, g.len())
        } else {
            buf
        };
        proof {
            let nb = encode_slot(schema[i as int], cand@)->0;
            match walk(schema, opv, i + 1, buf@) {
                Some(rest) => {
                    assert(before + (nb + rest) =~= out@ + rest);
                },
                None => {},
            }
        }
        i = i + 1;
    }
    true
}

/// Parses one source line for an address space of `address_limit` bytes:
/// `Ok(None)` for a line with nothing to encode, else the opcode followed by
/// the operand nibbles, and the directive's address if the line has one.
pub fn parser(line: &str, address_limit: usize) -> (r: Result<Option<ParserResult>, ParserError>)
    ensures
        reports(r, parse_line(line@, address_limit as nat)),
{
    let l = chars_of(line);
    let semi = find_char(&l, ';');
    let code = sub_chars(&l, 0, semi);
    let t = trim_chars(&code);
    let colon = find_char(&t, ':');
    let mut address: Option<u8> = None;
    let b: Vec<char>;
    if colon < t.len() {
        let before = sub_chars(&t, 0, colon);
        let d = trim_chars(&before);
        if !hex_prefixed_chars(&d, 2) {
            return Err(naming("Address \"", &d, "\" is not in a format of 0xHH."));
        }
        assert(is_hex_char_at(d@, 2) && is_hex_char_at(d@, 3));
        let value = hex_digit_value(d[2]) * 16 + hex_digit_value(d[3]);
        if value as usize >= address_limit {
            let mut text = String::from_str("Address \"");
            text.append(string_of(&d).as_str());
            text.append("\" is out of range.");
            return Err(ParserError::OutOfRange(text));
        }
        address = Some(value);
        let rest = sub_chars(&t, colon + 1, t.len());
        b = trim_chars(&rest);
    } else {
        b = t;
    }
    assert(b@ == body(line@));
    if b.len() == 0 {
        return Ok(None);
    }
    let w = find_space(&b);
    let m = sub_chars(&b, 0, w);
    let args: Vec<char> = if w < b.len() {
        let rest = sub_chars(&b, w + 1, b.len());
        trim_chars(&rest)
    } else {
        Vec::new()
    };
    assert(args@ == argument_text(b@));
    let ins = match lookup_chars(&m) {
        Some(ins) => ins,
        None => {
            return Err(naming("Instruction \"", &m, "\" is not valid."));
        },
    };
    let ops = split_operands(&args);
    let ghost opv = ops@.map_values(|o: Vec<char>| o@);
    assert(opv =~= operands(args@));
    let count = ins.parameter.argument_numbers;
    let arity = if args.len() == 0 {
        count == 0
    } else {
        ops.len() == count
    };
    if !arity {
        return Err(naming("Argument numbers for Instruction \"", &m, "\" is not valid."));
    }
    let mut bits: Vec<u8> = Vec::new();
    assert(ins.instruction_code <= 12);
    bits.push(ins.instruction_code as u8);
    if !encode_operands(&ins, &ops, &mut bits) {
        return Err(naming("Arguments for Instruction \"", &m, "\" is not valid."));
    }
    Ok(Some(ParserResult { bits, address }))
}

/// How many elements a slot of type `t` encodes to.
pub open spec fn slot_width(t: ArgumentType) -> nat {
    match t {
        ArgumentType::MemoryAddress | ArgumentType::Hexadecimal => 2,
        _ => 1,
    }
}

/// How many elements slots `i..` of `schema` encode to.
pub open spec fn schema_width(schema: Seq<ArgumentType>, i: int) -> nat
    decreases schema.len() - i,
{
    if i < 0 || i >= schema.len() {
        0
    } else {
        slot_width(schema[i]) + schema_width(schema, i + 1)
    }
}

/// The operand walk yields as many elements as its slots are wide, whatever
/// the operands.
pub proof fn lemma_walk_width(schema: Seq<ArgumentType>, ops: Seq<Seq<char>>, i: int, buf: Seq<char>)
    ensures
        walk(schema, ops, i, buf) matches Some(r) ==> r.len() == schema_width(schema, i),
    decreases schema.len() - i,
{
    if 0 <= i < schema.len() {
        let g = given(ops, i);
        let cand = if buf.len() > 0 {
            buf
        } else {
            g
        };
        let next = if schema[i] == ArgumentType::ZeroPadding {
            cand
        } else if buf.len() > 0 {
            g
        } else {
            buf
        };
        lemma_walk_width(schema, ops, i + 1, next);
    }
}

/// A line that encodes starts with its instruction's opcode, and every
/// instruction of the table fills exactly two bytes: the opcode and three
/// nibbles.
pub proof fn law_opcode_leads_two_bytes(line: Seq<char>, limit: nat)
    ensures
        parse_line(line, limit) matches LineOutcome::Encoded { bits, address } ==> {
            &&& table(mnemonic(body(line))) is Some
            &&& bits.len() == 4
            &&& bits[0] == table(mnemonic(body(line)))->0.code as u8
        },
{
    let b = body(line);
    let m = mnemonic(b);
    if let Some(ins) = table(m) {
        let ops = operands(argument_text(b));
        lemma_walk_width(ins.schema, ops, 0, Seq::empty());
        reveal_with_fuel(schema_width, 4);
    }
}

/// The slots the user writes operands for: all but the padding ones, in order.
pub open spec fn user_slots(schema: Seq<ArgumentType>) -> Seq<ArgumentType>
    decreases schema.len(),
{
    if schema.len() == 0 {
        Seq::empty()
    } else {
        let rest = user_slots(schema.subrange(1, schema.len() as int));
        if schema[0] == ArgumentType::ZeroPadding {
            rest
        } else {
            seq![schema[0]] + rest
        }
    }
}

/// `ops` are as many operands as the user slots of `schema`, each written in
/// the syntax of its slot.
pub open spec fn operands_fit(schema: Seq<ArgumentType>, ops: Seq<Seq<char>>) -> bool {
    let u = user_slots(schema);
    &&& ops.len() == u.len()
    &&& forall|j: int| 0 <= j < ops.len() ==> (#[trigger] encode_slot(u[j], ops[j])) is Some
}

proof fn lemma_user_slots_3(a: ArgumentType, b: ArgumentType, c: ArgumentType)
    ensures
        user_slots(seq![a, b, c]) == if a == ArgumentType::ZeroPadding {
            Seq::<ArgumentType>::empty()
        } else {
            seq![a]
        } + if b == ArgumentType::ZeroPadding {
            Seq::<ArgumentType>::empty()
        } else {
            seq![b]
        } + if c == ArgumentType::ZeroPadding {
            Seq::<ArgumentType>::empty()
        } else {
            seq![c]
        },
{
    let s = seq![a, b, c];
    assert(s.subrange(1, 3) =~= seq![b, c]);
    assert(seq![b, c].subrange(1, 2) =~= seq![c]);
    let e = seq![c].subrange(1, 1);
    assert(e.len() == 0);
    assert(user_slots(e) == Seq::<ArgumentType>::empty());
    assert(user_slots(seq![c]) == if c == ArgumentType::ZeroPadding {
        Seq::<ArgumentType>::empty()
    } else {
        seq![c]
    }) by {
        if c != ArgumentType::ZeroPadding {
            assert(seq![c] + Seq::<ArgumentType>::empty() =~= seq![c]);
        }
    }
    let uc = user_slots(seq![c]);
    let ub = user_slots(seq![b, c]);
    assert(ub == if b == ArgumentType::ZeroPadding {
        uc
    } else {
        seq![b] + uc
    });
    assert(user_slots(s) == if a == ArgumentType::ZeroPadding {
        ub
    } else {
        seq![a] + ub
    });
    assert(user_slots(s) =~= if a == ArgumentType::ZeroPadding {
        Seq::<ArgumentType>::empty()
    } else {
        seq![a]
    } + if b == ArgumentType::ZeroPadding {
        Seq::<ArgumentType>::empty()
    } else {
        seq![b]
    } + if c == ArgumentType::ZeroPadding {
        Seq::<ArgumentType>::empty()
    } else {
        seq![c]
    });
}

proof fn lemma_user_slots_2(a: ArgumentType, b: ArgumentType)
    requires
        a != ArgumentType::ZeroPadding,
        b != ArgumentType::ZeroPadding,
    ensures
        user_slots(seq![a, b]) == seq![a, b],
{
    let e = seq![b].subrange(1, 1);
    assert(e.len() == 0);
    assert(user_slots(e) == Seq::<ArgumentType>::empty());
    assert(seq![a, b].subrange(1, 2) =~= seq![b]);
    assert(user_slots(seq![b]) =~= seq![b]);
    assert(user_slots(seq![a, b]) =~= seq![a, b]);
}

/// Every instruction of the table encodes when each operand is written in the
/// syntax of the slot it fills: padding slots are skipped over, and the
/// result is the opcode followed by three nibbles.
pub proof fn law_valid_operands_encode(m: Seq<char>, ops: Seq<Seq<char>>)
    requires
        table(m) is Some,
        operands_fit(table(m)->0.schema, ops),
    ensures
        walk(table(m)->0.schema, ops, 0, Seq::empty()) is Some,
        walk(table(m)->0.schema, ops, 0, Seq::empty())->0.len() == 3,
{
    let ins = table(m)->0;
    let sc = ins.schema;
    if sc.len() == 2 {
        lemma_user_slots_2(sc[0], sc[1]);
        assert(sc =~= seq![sc[0], sc[1]]);
    } else {
        lemma_user_slots_3(sc[0], sc[1], sc[2]);
        assert(sc =~= seq![sc[0], sc[1], sc[2]]);
    }
    let u = user_slots(sc);
    assert(ops.len() >= 1 ==> encode_slot(u[0], ops[0]) is Some);
    assert(ops.len() >= 2 ==> encode_slot(u[1], ops[1]) is Some);
    assert(ops.len() >= 3 ==> encode_slot(u[2], ops[2]) is Some);
    reveal_with_fuel(walk, 4);
    lemma_walk_width(sc, ops, 0, Seq::empty());
    reveal_with_fuel(schema_width, 4);
}

} // verus!
