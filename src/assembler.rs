//! The memory image: lines are encoded in order and their bytes written at a
//! cursor that each line moves on by two; the image is then shown as hex.
use vstd::prelude::*;
use crate::function_parser::{parse_line, parser, reports, string_of, LineOutcome, ParserError, ParserResult};

verus! {

/// Size of the memory image and of its address space.
pub const IMAGE_SIZE: usize = 256;

/// The bytes a line's elements pack into: element `2k` times 16 plus
/// element `2k + 1`, modulo 256.
pub open spec fn pack(bits: Seq<u8>) -> Seq<u8> {
    Seq::new(
        bits.len() / 2,
        |k: int| ((bits[2 * k] as nat * 16 + bits[2 * k + 1] as nat) % 256) as u8,
    )
}

/// `image` with `bytes` written from `start` on, addresses taken modulo 256.
pub open spec fn put(image: Seq<u8>, start: nat, bytes: Seq<u8>) -> Seq<u8>
    decreases bytes.len(),
{
    if bytes.len() == 0 {
        image
    } else {
        put(image.update((start % 256) as int, bytes[0]), start + 1, bytes.drop_first())
    }
}

pub open spec fn zero_image() -> Seq<u8> {
    Seq::new(256, |i: int| 0u8)
}

/// Where an assembly run stands after some lines.
pub enum RunState {
    Running { image: Seq<u8>, pc: u8 },
    /// Stopped at the 1-based line `line`, which came to `outcome`.
    Failed { line: nat, outcome: LineOutcome },
}

/// The run after the first `n` of `lines`, from an all-zero image and a
/// cursor at 0.
pub open spec fn run(lines: Seq<Seq<char>>, n: int) -> RunState
    decreases n,
{
    if n <= 0 {
        RunState::Running { image: zero_image(), pc: 0 }
    } else {
        match run(lines, n - 1) {
            RunState::Running { image, pc } => match parse_line(lines[n - 1], 256) {
                LineOutcome::Blank => RunState::Running { image, pc },
                LineOutcome::Encoded { bits, address } => {
                    let start: u8 = match address {
                        Some(a) => a,
                        None => pc,
                    };
                    RunState::Running {
                        image: put(image, start as nat, pack(bits)),
                        pc: ((start as nat + 2) % 256) as u8,
                    }
                },
                o => RunState::Failed { line: n as nat, outcome: o },
            },
            f => f,
        }
    }
}

pub open spec fn text_of(lines: Seq<String>) -> Seq<Seq<char>> {
    lines.map_values(|s: String| s@)
}

/// The run over all of `lines`.
pub open spec fn assembled(lines: Seq<Seq<char>>) -> RunState {
    run(lines, lines.len() as int)
}

/// A run that has failed stays failed, at the same line.
pub proof fn lemma_failure_stays(lines: Seq<Seq<char>>, i: int, n: int)
    requires
        1 <= i <= n,
        run(lines, i) is Failed,
    ensures
        run(lines, n) == run(lines, i),
    decreases n - i,
{
    if n > i {
        lemma_failure_stays(lines, i, n - 1);
    }
}

/// The line at which assembly stopped, and why.
#[derive(Debug)]
pub struct LineError {
    /// 1-based.
    pub line_number: usize,
    pub error: ParserError,
}

/// `r` is what assembly returns for the run `s`.
pub open spec fn assembly_reports(r: Result<Vec<u8>, LineError>, s: RunState) -> bool {
    match s {
        RunState::Running { image, pc } => r matches Ok(v) && v@ == image,
        RunState::Failed { line, outcome } => r matches Err(e) && e.line_number == line
            && reports(Err(e.error), outcome),
    }
}

/// Writes `bytes` into `image` from `start` on, wrapping at the end.
fn write_bytes(image: &mut Vec<u8>, start: u8, bytes: &Vec<u8>)
    requires
        old(image)@.len() == 256,
    ensures
        final(image)@ == put(old(image)@, start as nat, bytes@),
        final(image)@.len() == 256,
{
    let mut k: usize = 0;
    let mut a: usize = start as usize;
    assert(bytes@.subrange(0, bytes@.len() as int) =~= bytes@);
    while k < bytes.len()
        invariant
            k <= bytes@.len(),
            a < 256,
            a as nat == (start as nat + k as nat) % 256,
            image@.len() == 256,
            put(old(image)@, start as nat, bytes@) == put(
                image@,
                start as nat + k as nat,
                bytes@.subrange(k as int, bytes@.len() as int),
            ),
        decreases bytes@.len() - k,
    {
        proof {
            let rest = bytes@.subrange(k as int, bytes@.len() as int);
            assert(rest.drop_first() =~= bytes@.subrange(k + 1, bytes@.len() as int));
        }
        image.set(a, bytes[k]);
        a = (a + 1) % 256;
        k = k + 1;
    }
    assert(bytes@.subrange(k as int, bytes@.len() as int) =~= Seq::<u8>::empty());
}

/// Packs element pairs into bytes.
fn pack_bits(bits: &Vec<u8>) -> (r: Vec<u8>)
    ensures
        r@ == pack(bits@),
{
    let mut r: Vec<u8> = Vec::new();
    let mut k: usize = 0;
    while k < bits.len() / 2
        invariant
            k <= bits@.len() / 2,
            r@ =~= pack(bits@).subrange(0, k as int),
        decreases bits@.len() / 2 - k,
    {
        let v: u32 = (bits[2 * k] as u32 * 16 + bits[2 * k + 1] as u32) % 256;
        r.push(v as u8);
        k = k + 1;
    }
    r
}

/// Assembles `lines` into a 256-byte image, or stops at the first line that
/// does not parse.
pub fn assemble(lines: &Vec<String>) -> (r: Result<Vec<u8>, LineError>)
    ensures
        assembly_reports(r, assembled(text_of(lines@))),
        r matches Ok(v) ==> v@.len() == IMAGE_SIZE,
{
    let ghost text = text_of(lines@);
    let mut image: Vec<u8> = Vec::new();
    let mut z: usize = 0;
    while z < IMAGE_SIZE
        invariant
            z <= 256,
            image@ =~= zero_image().subrange(0, z as int),
        decreases 256 - z,
    {
        image.push(0);
        z = z + 1;
    }
    assert(image@ =~= zero_image());
    let mut pc: u8 = 0;
    let mut i: usize = 0;
    while i < lines.len()
        invariant
            i <= lines@.len(),
            text == text_of(lines@),
            image@.len() == 256,
            run(text, i as int) == (RunState::Running { image: image@, pc }),
        decreases lines@.len() - i,
    {
        assert(text[i as int] == lines@[i as int]@);
        let parsed = parser(lines[i].as_str(), IMAGE_SIZE);
        match parsed {
            Err(e) => {
                proof {
                    lemma_failure_stays(text, i as int + 1, text.len() as int);
                }
                return Err(LineError { line_number: i + 1, error: e });
            },
            Ok(None) => {},
            Ok(Some(ParserResult { bits, address })) => {
                let start: u8 = match address {
                    Some(a) => a,
                    None => pc,
                };
                let bytes = pack_bits(&bits);
                write_bytes(&mut image, start, &bytes);
                pc = ((start as u16 + 2) % 256) as u8;
            },
        }
        i = i + 1;
    }
    Ok(image)
}

pub open spec fn digits() -> Seq<char> {
    seq!['0', '1', '2', '3', '4', '5', '6', '7', '8', '9', 'a', 'b', 'c', 'd', 'e', 'f']
}

/// Each byte as two lowercase hexadecimal digits, high digit first.
pub open spec fn hex_text(image: Seq<u8>) -> Seq<char> {
    Seq::new(
        2 * image.len(),
        |i: int|
            if i % 2 == 0 {
                digits()[(image[i / 2] / 16) as int]
            } else {
                digits()[(image[i / 2] % 16) as int]
            },
    )
}

/// `s` without its trailing `'0'`s.
pub open spec fn trim_zeros(s: Seq<char>) -> Seq<char>
    decreases s.len(),
{
    if s.len() > 0 && s.last() == '0' {
        trim_zeros(s.drop_last())
    } else {
        s
    }
}

/// The shown form of an image: its hex text without trailing zeros, with one
/// `'0'` put back when what is left ends in `'c'`.
pub open spec fn formatted(image: Seq<u8>) -> Seq<char> {
    let t = trim_zeros(hex_text(image));
    if t.len() > 0 && t.last() == 'c' {
        t.push('0')
    } else {
        t
    }
}

fn hex_char(n: u8) -> (r: char)
    requires
        n < 16,
    ensures
        r == digits()[n as int],
{
    let d = vec!['0', '1', '2', '3', '4', '5', '6', '7', '8', '9', 'a', 'b', 'c', 'd', 'e', 'f'];
    d[n as usize]
}

/// Shows an image as lowercase hex, trimmed as `formatted` says.
pub fn format_image(image: &Vec<u8>) -> (r: String)
    requires
        image@.len() <= usize::MAX / 2,
    ensures
        r@ == formatted(image@),
{
    let mut text: Vec<char> = Vec::new();
    let mut i: usize = 0;
    while i < image.len()
        invariant
            i <= image@.len(),
            image@.len() <= usize::MAX / 2,
            text@ =~= hex_text(image@).subrange(0, 2 * i as int),
        decreases image@.len() - i,
    {
        text.push(hex_char(image[i] / 16));
        text.push(hex_char(image[i] % 16));
        i = i + 1;
    }
    assert(text@ =~= hex_text(image@));
    let mut end: usize = text.len();
    while end > 0 && text[end - 1] == '0'
        invariant
            end <= text@.len(),
            trim_zeros(text@) == trim_zeros(text@.subrange(0, end as int)),
        decreases end,
    {
        assert(text@.subrange(0, end as int).drop_last() =~= text@.subrange(0, end - 1));
        end = end - 1;
    }
    let kept = crate::function_parser::sub_chars(&text, 0, end);
    let mut r = string_of(&kept);
    if end > 0 && text[end - 1] == 'c' {
        r.push('0');
    }
    r
}

/// Assembles `lines` and shows the image, or reports the first line that
/// does not parse.
pub fn asm_transformer(lines: &Vec<String>) -> (r: Result<String, LineError>)
    ensures
        match assembled(text_of(lines@)) {
            RunState::Running { image, pc } => r matches Ok(s) && s@ == formatted(image),
            RunState::Failed { line, outcome } => r matches Err(e) && e.line_number == line
                && reports(Err(e.error), outcome),
        },
{
    match assemble(lines) {
        Ok(image) => Ok(format_image(&image)),
        Err(e) => Err(e),
    }
}

/// Dropping trailing zeros ignores a run of `'0'`s from `n` on.
pub proof fn lemma_trim_zeros_suffix(s: Seq<char>, n: int)
    requires
        0 <= n <= s.len(),
        forall|i: int| n <= i < s.len() ==> s[i] == '0',
    ensures
        trim_zeros(s) == trim_zeros(s.subrange(0, n)),
    decreases s.len(),
{
    if s.len() == n {
        assert(s.subrange(0, n) =~= s);
    } else {
        lemma_trim_zeros_suffix(s.drop_last(), n);
        assert(s.drop_last().subrange(0, n) =~= s.subrange(0, n));
    }
}

/// An image of zeros only is shown as the empty text.
pub proof fn law_zero_image_formats_empty(image: Seq<u8>)
    requires
        forall|i: int| 0 <= i < image.len() ==> image[i] == 0,
    ensures
        formatted(image) == Seq::<char>::empty(),
{
    let t = hex_text(image);
    assert forall|i: int| 0 <= i < t.len() implies t[i] == '0' by {
        assert(image[i / 2] == 0);
    }
    lemma_trim_zeros_suffix(t, 0);
    assert(t.subrange(0, 0) =~= Seq::<char>::empty());
}

/// When the last non-zero byte is `0x0C`, the shown text keeps the `'0'`
/// that follows its `'c'`.
pub proof fn law_trailing_c_keeps_a_zero(image: Seq<u8>, k: int)
    requires
        0 <= k < image.len(),
        image[k] == 0x0C,
        forall|j: int| k < j < image.len() ==> image[j] == 0,
    ensures
        formatted(image) == hex_text(image.subrange(0, k + 1)).push('0'),
        formatted(image).last() == '0',
        formatted(image)[2 * k + 1] == 'c',
{
    let t = hex_text(image);
    let n = 2 * k + 2;
    assert forall|i: int| n <= i < t.len() implies t[i] == '0' by {
        assert(image[i / 2] == 0);
    }
    lemma_trim_zeros_suffix(t, n);
    let p = t.subrange(0, n);
    assert(p =~= hex_text(image.subrange(0, k + 1)));
    assert(p.last() == digits()[12]);
    assert(trim_zeros(p) == p);
}

/// Every run starts from an all-zero image with the cursor at 0, and what a
/// run comes to depends on its lines alone: the same lines assemble to the
/// same outcome and the same shown text.
pub proof fn law_same_lines_same_image(a: Seq<Seq<char>>, b: Seq<Seq<char>>)
    requires
        a =~= b,
    ensures
        run(a, 0) == (RunState::Running { image: zero_image(), pc: 0 }),
        assembled(a) == assembled(b),
        assembled(a) matches RunState::Running { image, pc } ==> (assembled(b) matches RunState::Running {
            image: image2,
            pc: pc2,
        } && formatted(image) == formatted(image2)),
{
}

} // verus!
