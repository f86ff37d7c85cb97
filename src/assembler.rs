//! The assembler's front end: assembly text to program elements.
//!
//! A source is a sequence of words separated by whitespace or commas; `;`
//! starts a comment that runs to the end of the line. A word ending in `:`
//! defines a label for the element that follows. An element is a mnemonic
//! with its operands, or `.data` with one or more byte values. Numbers are
//! decimal, or hex after `0x`.

use vstd::prelude::*;

use crate::compiler::{
    assembles_to, elem_core, elem_labels, process_prog, AsmError, ElemCore, ProgElement,
};
use crate::insts::{encode_spec, Chip8Inst};

verus! {

/// Whether `c` separates words.
pub open spec fn is_separator(c: char) -> bool {
    c == ' ' || c == '\t' || c == '\r' || c == '\n' || c == ','
}

/// The word spans of `s` from position `i` on, appended to `acc`; `start` is
/// where the current word began and `comment` whether a comment is open.
pub open spec fn spans_acc(
    s: Seq<char>,
    i: int,
    start: Option<int>,
    comment: bool,
    acc: Seq<(int, int)>,
) -> Seq<(int, int)>
    decreases s.len() - i,
{
    if i >= s.len() {
        match start {
            Some(a) => acc.push((a, s.len() as int)),
            None => acc,
        }
    } else {
        let c = s[i];
        let closed = match start {
            Some(a) => acc.push((a, i)),
            None => acc,
        };
        if comment {
            spans_acc(s, i + 1, None, c != '\n', acc)
        } else if c == ';' {
            spans_acc(s, i + 1, None, true, closed)
        } else if is_separator(c) {
            spans_acc(s, i + 1, None, false, closed)
        } else {
            spans_acc(s, i + 1, if start is None { Some(i) } else { start }, false, acc)
        }
    }
}

/// The start and end of each word of `s`, in order.
pub open spec fn word_spans(s: Seq<char>) -> Seq<(int, int)> {
    spans_acc(s, 0, None, false, Seq::empty())
}

/// The characters of a string.
fn chars_of(src: &str) -> (r: Vec<char>)
    ensures
        r@ == src@,
{
    let n = src.unicode_len();
    let mut out: Vec<char> = Vec::new();
    let mut i: usize = 0;
    while i < n
        invariant
            n == src@.len(),
            i <= n,
            out@ == src@.take(i as int),
        decreases n - i,
    {
        out.push(src.get_char(i));
        i += 1;
        assert(out@ =~= src@.take(i as int));
    }
    assert(src@.take(n as int) =~= src@);
    out
}

/// The start and end of each word, in order.
fn tokenize(s: &Vec<char>) -> (r: Vec<(usize, usize)>)
    ensures
        spans_ok(s@, r@),
        r@.len() == word_spans(s@).len(),
        forall|k: int|
            0 <= k < r@.len() ==> (#[trigger] r@[k]).0 as int == word_spans(s@)[k].0
                && r@[k].1 as int == word_spans(s@)[k].1,
{
    let ghost target = word_spans(s@);
    let mut out: Vec<(usize, usize)> = Vec::new();
    let mut start: Option<usize> = None;
    let mut comment = false;
    let mut i: usize = 0;
    let ghost acc: Seq<(int, int)> = Seq::empty();
    while i < s.len()
        invariant
            i <= s@.len(),
            acc.len() == out@.len(),
            forall|k: int|
                0 <= k < out@.len() ==> (#[trigger] out@[k]).0 as int == acc[k].0
                    && out@[k].1 as int == acc[k].1,
            start matches Some(a) ==> a < i,
            comment ==> start is None,
            forall|k: int| 0 <= k < out@.len() ==> (#[trigger] out@[k]).0 <= out@[k].1 <= i,
            spans_acc(s@, i as int, match start {
                Some(a) => Some(a as int),
                None => None,
            }, comment, acc) == target,
        decreases s@.len() - i,
    {
        let c = s[i];
        if comment {
            comment = c != '\n';
        } else if c == ';' || c == ' ' || c == '\t' || c == '\r' || c == '\n' || c == ',' {
            match start {
                Some(a) => {
                    out.push((a, i));
                    proof {
                        acc = acc.push((a as int, i as int));
                    }
                },
                None => {},
            }
            start = None;
            comment = c == ';';
        } else {
            if start.is_none() {
                start = Some(i);
            }
        }
        i += 1;
    }
    match start {
        Some(a) => {
            out.push((a, i));
            proof {
                acc = acc.push((a as int, i as int));
            }
        },
        None => {},
    }
    out
}


/// The value of a digit in `base` (10 or 16), either case.
pub open spec fn digit_value(c: char, base: nat) -> Option<nat> {
    if '0' <= c && c <= '9' {
        Some((c as nat - '0' as nat) as nat)
    } else if base == 16 && 'a' <= c && c <= 'f' {
        Some((c as nat - 'a' as nat + 10) as nat)
    } else if base == 16 && 'A' <= c && c <= 'F' {
        Some((c as nat - 'A' as nat + 10) as nat)
    } else {
        None
    }
}

/// The value of a run of digits in `base`; an empty run is 0.
pub open spec fn digits_value(t: Seq<char>, base: nat) -> Option<nat>
    decreases t.len(),
{
    if t.len() == 0 {
        Some(0)
    } else {
        match (digits_value(t.drop_last(), base), digit_value(t.last(), base)) {
            (Some(v), Some(d)) => Some(v * base + d),
            _ => None,
        }
    }
}

/// The value of a number word: `0x` and hex digits, or decimal digits.
pub open spec fn number_value(t: Seq<char>) -> Option<nat> {
    if t.len() > 2 && t[0] == '0' && (t[1] == 'x' || t[1] == 'X') {
        digits_value(t.subrange(2, t.len() as int), 16)
    } else if t.len() > 0 {
        digits_value(t, 10)
    } else {
        None
    }
}

/// The register that a word names: `V` or `v` and one hex digit.
pub open spec fn register_value(t: Seq<char>) -> Option<nat> {
    if t.len() == 2 && (t[0] == 'V' || t[0] == 'v') {
        digit_value(t[1], 16)
    } else {
        None
    }
}

/// Whether `c` may start an identifier.
pub open spec fn ident_start(c: char) -> bool {
    ('a' <= c && c <= 'z') || ('A' <= c && c <= 'Z') || c == '_'
}

/// Whether `c` may continue an identifier.
pub open spec fn ident_char(c: char) -> bool {
    ident_start(c) || ('0' <= c && c <= '9')
}

/// Whether a word is an identifier.
pub open spec fn is_ident(t: Seq<char>) -> bool {
    &&& t.len() > 0
    &&& ident_start(t[0])
    &&& forall|k: int| 1 <= k < t.len() ==> ident_char(#[trigger] t[k])
}

/// The value of a digit, if it is one.
fn digit(c: char, base: u32) -> (r: Option<u32>)
    requires
        base == 10 || base == 16,
    ensures
        match digit_value(c, base as nat) {
            Some(d) => r == Some(d as u32) && d < base,
            None => r is None,
        },
{
    if '0' <= c && c <= '9' {
        Some(c as u32 - '0' as u32)
    } else if base == 16 && 'a' <= c && c <= 'f' {
        Some(c as u32 - 'a' as u32 + 10)
    } else if base == 16 && 'A' <= c && c <= 'F' {
        Some(c as u32 - 'A' as u32 + 10)
    } else {
        None
    }
}

/// `v` capped at 0x10000.
pub open spec fn capped(v: nat) -> nat {
    if v < 0x10000 {
        v
    } else {
        0x10000
    }
}

/// The value of the digits `s[a..b]` in `base`, capped at 0x10000.
fn digits(s: &Vec<char>, a: usize, b: usize, base: u32) -> (r: Option<u32>)
    requires
        a <= b <= s@.len(),
        base == 10 || base == 16,
    ensures
        match digits_value(s@.subrange(a as int, b as int), base as nat) {
            Some(v) => r == Some(capped(v) as u32),
            None => r is None,
        },
{
    let mut acc: u32 = 0;
    let mut k: usize = a;
    assert(s@.subrange(a as int, a as int) =~= Seq::<char>::empty());
    while k < b
        invariant
            a <= k <= b <= s@.len(),
            base == 10 || base == 16,
            digits_value(s@.subrange(a as int, k as int), base as nat) is Some,
            capped(digits_value(s@.subrange(a as int, k as int), base as nat)->0) == acc as nat,
        decreases b - k,
    {
        assert(s@.subrange(a as int, k + 1).drop_last() =~= s@.subrange(a as int, k as int));
        let d = match digit(s[k], base) {
            Some(d) => d,
            None => {
                proof {
                    let t = s@.subrange(a as int, b as int);
                    lemma_digits_invalid(t, (k - a) as int, base as nat);
                    assert(t.take(k + 1 - a) =~= s@.subrange(a as int, k + 1));
                }
                return None;
            },
        };
        let ghost prev = acc;
        let next: u32 = acc * base + d;
        proof {
            let v = digits_value(s@.subrange(a as int, k as int), base as nat)->0;
            if acc == 0x10000 {
                assert(v * base + d >= 0x10000) by (nonlinear_arith)
                    requires v >= 0x10000, base >= 10, d >= 0;
            }
        }
        acc = if next >= 0x10000 { 0x10000 } else { next };
        k += 1;
    }
    assert(s@.subrange(a as int, b as int) =~= s@.subrange(a as int, k as int));
    Some(acc)
}

/// A run with a bad digit in its first `k + 1` characters has no value.
proof fn lemma_digits_invalid(t: Seq<char>, k: int, base: nat)
    requires
        0 <= k < t.len(),
        digit_value(t[k], base) is None,
    ensures
        digits_value(t.take(k + 1), base) is None,
        digits_value(t, base) is None,
    decreases t.len(),
{
    assert(t.take(k + 1).drop_last() =~= t.take(k));
    assert(t.take(k + 1).last() == t[k]);
    if k + 1 < t.len() {
        assert(t.drop_last().take(k + 1) =~= t.take(k + 1));
        lemma_digits_invalid(t.drop_last(), k, base);
    } else {
        assert(t.take(k + 1) =~= t);
    }
}

/// The value of the number word `s[a..b]`, if it is one and fits in 16 bits.
fn number(s: &Vec<char>, a: usize, b: usize) -> (r: Option<u16>)
    requires
        a <= b <= s@.len(),
    ensures
        match number_value(s@.subrange(a as int, b as int)) {
            Some(v) => if v <= 0xffff { r == Some(v as u16) } else { r is None },
            None => r is None,
        },
{
    let ghost t = s@.subrange(a as int, b as int);
    let v = if b - a > 2 && s[a] == '0' && (s[a + 1] == 'x' || s[a + 1] == 'X') {
        assert(t.subrange(2, t.len() as int) =~= s@.subrange(a + 2, b as int));
        digits(s, a + 2, b, 16)
    } else if b > a {
        digits(s, a, b, 10)
    } else {
        None
    };
    match v {
        Some(v) => if v <= 0xffff { Some(v as u16) } else { None },
        None => None,
    }
}

/// The register that the word `s[a..b]` names, if it names one.
fn register(s: &Vec<char>, a: usize, b: usize) -> (r: Option<usize>)
    requires
        a <= b <= s@.len(),
    ensures
        match register_value(s@.subrange(a as int, b as int)) {
            Some(x) => r == Some(x as usize) && x < 16,
            None => r is None,
        },
{
    if b - a == 2 && (s[a] == 'V' || s[a] == 'v') {
        match digit(s[a + 1], 16) {
            Some(d) => Some(d as usize),
            None => None,
        }
    } else {
        None
    }
}

/// Whether the word `s[a..b]` is an identifier.
fn ident(s: &Vec<char>, a: usize, b: usize) -> (r: bool)
    requires
        a <= b <= s@.len(),
    ensures
        r == is_ident(s@.subrange(a as int, b as int)),
{
    let ghost t = s@.subrange(a as int, b as int);
    if b == a {
        return false;
    }
    let c = s[a];
    if !(('a' <= c && c <= 'z') || ('A' <= c && c <= 'Z') || c == '_') {
        return false;
    }
    let mut k: usize = a + 1;
    while k < b
        invariant
            a < k <= b <= s@.len(),
            t == s@.subrange(a as int, b as int),
            forall|q: int| 1 <= q < k - a ==> ident_char(#[trigger] t[q]),
        decreases b - k,
    {
        let c = s[k];
        let ok = ('a' <= c && c <= 'z') || ('A' <= c && c <= 'Z') || c == '_' || ('0' <= c && c
            <= '9');
        if !ok {
            assert(!ident_char(t[k - a]));
            return false;
        }
        k += 1;
    }
    true
}

/// Whether the word `s[a..b]` is the text of `w`.
fn word_is(s: &Vec<char>, a: usize, b: usize, w: &str) -> (r: bool)
    requires
        a <= b <= s@.len(),
    ensures
        r == (s@.subrange(a as int, b as int) == w@),
{
    let n = w.unicode_len();
    if b - a != n {
        return false;
    }
    let mut k: usize = 0;
    while k < n
        invariant
            n == w@.len(),
            b - a == n,
            a <= b <= s@.len(),
            k <= n,
            forall|q: int| 0 <= q < k ==> s@[a + q] == w@[q],
        decreases n - k,
    {
        if s[a + k] != w.get_char(k) {
            assert(s@.subrange(a as int, b as int)[k as int] != w@[k as int]);
            return false;
        }
        k += 1;
    }
    assert(s@.subrange(a as int, b as int) =~= w@);
    true
}


/// The words of a source, in order.
pub open spec fn source_words(s: Seq<char>) -> Seq<Seq<char>> {
    word_spans(s).map_values(|sp: (int, int)| s.subrange(sp.0, sp.1))
}

/// Whether a word defines a label: an identifier followed by `:`.
pub open spec fn is_label_def(t: Seq<char>) -> bool {
    t.len() >= 2 && t.last() == ':' && is_ident(t.drop_last())
}

/// The value of a number word that is at most `max`.
pub open spec fn imm(t: Seq<char>, max: nat) -> Option<nat> {
    match number_value(t) {
        Some(v) => if v <= max {
            Some(v)
        } else {
            None
        },
        None => None,
    }
}

/// How many operands a mnemonic takes, or `None` for a word that is no mnemonic.
pub open spec fn arity(m: Seq<char>) -> Option<nat> {
    if m == "draw"@ {
        Some(3)
    } else if m == "clr"@ || m == "retn"@ {
        Some(0)
    } else if m == "mc"@ || m == "jmp"@ || m == "jmpv"@ || m == "call"@ || m == "skipeqk"@ || m
        == "skipnek"@ || m == "read"@ || m == "font"@ || m == "bcd"@ || m == "str"@ || m
        == "load"@ {
        Some(1)
    } else if m == "skipeq"@ || m == "skipne"@ || m == "mov"@ || m == "add"@ || m == "or"@ || m
        == "and"@ || m == "xor"@ || m == "sub"@ || m == "subr"@ || m == "shl"@ || m == "shr"@
        || m == "rand"@ {
        Some(2)
    } else {
        None
    }
}

/// An encoded instruction.
pub open spec fn enc(i: Chip8Inst) -> Option<ElemCore> {
    Some(ElemCore::Instr(encode_spec(i)))
}

/// The instruction of a mnemonic whose one operand is register `x`.
pub open spec fn one_reg_inst(m: Seq<char>, x: usize) -> Chip8Inst {
    if m == "skipeqk"@ {
        Chip8Inst::SkipEqKey(x)
    } else if m == "skipnek"@ {
        Chip8Inst::SkipNeqKey(x)
    } else if m == "read"@ {
        Chip8Inst::GetKey(x)
    } else if m == "font"@ {
        Chip8Inst::LoadFont(x)
    } else if m == "bcd"@ {
        Chip8Inst::BCDConvert(x)
    } else if m == "str"@ {
        Chip8Inst::StoreMem(x)
    } else {
        Chip8Inst::LoadMem(x)
    }
}

/// The instruction of a mnemonic whose operands are registers `x` and `y`.
pub open spec fn two_reg_inst(m: Seq<char>, x: usize, y: usize) -> Chip8Inst {
    if m == "or"@ {
        Chip8Inst::BinOr(x, y)
    } else if m == "and"@ {
        Chip8Inst::BinAnd(x, y)
    } else if m == "xor"@ {
        Chip8Inst::BinXor(x, y)
    } else if m == "sub"@ {
        Chip8Inst::ArithSub(x, y)
    } else if m == "subr"@ {
        Chip8Inst::ArithSubReverse(x, y)
    } else if m == "shl"@ {
        Chip8Inst::ShiftLeft(x, y)
    } else {
        Chip8Inst::ShiftRight(x, y)
    }
}

/// A jump, call or register jump to an address or a label.
pub open spec fn lower_target(m: Seq<char>, t: Seq<char>) -> Option<ElemCore> {
    match imm(t, 0xfff) {
        Some(a) => enc(
            if m == "jmp"@ {
                Chip8Inst::Jump(a as usize)
            } else if m == "jmpv"@ {
                Chip8Inst::JumpReg(a as usize)
            } else {
                Chip8Inst::SubCall(a as usize)
            },
        ),
        None => if is_ident(t) {
            Some(
                if m == "jmp"@ {
                    ElemCore::Jump(t)
                } else if m == "jmpv"@ {
                    ElemCore::JumpV(t)
                } else {
                    ElemCore::Call(t)
                },
            )
        } else {
            None
        },
    }
}

/// A skip on a register against a constant or another register.
pub open spec fn lower_skip(eq: bool, o: Seq<Seq<char>>) -> Option<ElemCore> {
    match register_value(o[0]) {
        Some(x) => match imm(o[1], 0xff) {
            Some(nn) => enc(
                if eq {
                    Chip8Inst::SkipEqConst(x as usize, nn as u8)
                } else {
                    Chip8Inst::SkipNeqConst(x as usize, nn as u8)
                },
            ),
            None => match register_value(o[1]) {
                Some(y) => enc(
                    if eq {
                        Chip8Inst::SkipEqReg(x as usize, y as usize)
                    } else {
                        Chip8Inst::SkipNeqReg(x as usize, y as usize)
                    },
                ),
                None => None,
            },
        },
        None => None,
    }
}

/// The forms of `mov`.
pub open spec fn lower_mov(o: Seq<Seq<char>>) -> Option<ElemCore> {
    if o[0] == "I"@ {
        match imm(o[1], 0xfff) {
            Some(a) => enc(Chip8Inst::SetIndex(a as usize)),
            None => None,
        }
    } else if o[0] == "D"@ {
        match register_value(o[1]) {
            Some(x) => enc(Chip8Inst::SetDelay(x as usize)),
            None => None,
        }
    } else if o[0] == "S"@ {
        match register_value(o[1]) {
            Some(x) => enc(Chip8Inst::SetSound(x as usize)),
            None => None,
        }
    } else {
        match register_value(o[0]) {
            Some(x) => if o[1] == "D"@ {
                enc(Chip8Inst::ReadDelay(x as usize))
            } else {
                match imm(o[1], 0xff) {
                    Some(nn) => enc(Chip8Inst::RegSet(x as usize, nn as u8)),
                    None => match register_value(o[1]) {
                        Some(y) => enc(Chip8Inst::Assign(x as usize, y as usize)),
                        None => None,
                    },
                }
            },
            None => None,
        }
    }
}

/// The forms of `add`.
pub open spec fn lower_add(o: Seq<Seq<char>>) -> Option<ElemCore> {
    if o[0] == "I"@ {
        match register_value(o[1]) {
            Some(x) => enc(Chip8Inst::AddIndex(x as usize)),
            None => None,
        }
    } else {
        match register_value(o[0]) {
            Some(x) => match imm(o[1], 0xff) {
                Some(nn) => enc(Chip8Inst::RegAddNoCarry(x as usize, nn as u8)),
                None => match register_value(o[1]) {
                    Some(y) => enc(Chip8Inst::ArithAdd(x as usize, y as usize)),
                    None => None,
                },
            },
            None => None,
        }
    }
}

/// The element that mnemonic `m` with operands `o` stands for.
pub open spec fn lower(m: Seq<char>, o: Seq<Seq<char>>) -> Option<ElemCore> {
    if m == "clr"@ {
        enc(Chip8Inst::ClearScreen)
    } else if m == "retn"@ {
        enc(Chip8Inst::SubReturn)
    } else if m == "mc"@ {
        match imm(o[0], 0xfff) {
            Some(a) => enc(Chip8Inst::MachineInst(a as usize)),
            None => None,
        }
    } else if m == "jmp"@ || m == "jmpv"@ || m == "call"@ {
        lower_target(m, o[0])
    } else if m == "skipeqk"@ || m == "skipnek"@ || m == "read"@ || m == "font"@ || m == "bcd"@
        || m == "str"@ || m == "load"@ {
        match register_value(o[0]) {
            Some(x) => enc(one_reg_inst(m, x as usize)),
            None => None,
        }
    } else if m == "skipeq"@ {
        lower_skip(true, o)
    } else if m == "skipne"@ {
        lower_skip(false, o)
    } else if m == "mov"@ {
        lower_mov(o)
    } else if m == "add"@ {
        lower_add(o)
    } else if m == "rand"@ {
        match (register_value(o[0]), imm(o[1], 0xff)) {
            (Some(x), Some(nn)) => enc(Chip8Inst::Random(x as usize, nn as u8)),
            _ => None,
        }
    } else if m == "draw"@ {
        match (register_value(o[0]), register_value(o[1]), imm(o[2], 0xf)) {
            (Some(x), Some(y), Some(n)) => enc(Chip8Inst::Display(x as usize, y as usize, n as u8)),
            _ => None,
        }
    } else {
        match (register_value(o[0]), register_value(o[1])) {
            (Some(x), Some(y)) => enc(two_reg_inst(m, x as usize, y as usize)),
            _ => None,
        }
    }
}

/// The number of byte values that follow position `j`.
pub open spec fn data_run(w: Seq<Seq<char>>, j: int) -> nat
    decreases w.len() - j,
{
    if 0 <= j < w.len() && imm(w[j], 0xff) is Some {
        1 + data_run(w, j + 1)
    } else {
        0
    }
}

/// The `k` byte values from position `j`.
pub open spec fn data_bytes(w: Seq<Seq<char>>, j: int, k: nat) -> Seq<u8> {
    Seq::new(k, |q: int| imm(w[j + q], 0xff)->0 as u8)
}

/// Parse the words from position `i` on, with `labels` waiting for their
/// element and `acc` the elements so far (each as its labels and what lies
/// under them). An error gives the position of the word that failed.
pub open spec fn parse_acc(
    w: Seq<Seq<char>>,
    i: int,
    labels: Seq<Seq<char>>,
    acc: Seq<(Seq<Seq<char>>, ElemCore)>,
) -> Result<Seq<(Seq<Seq<char>>, ElemCore)>, int>
    decreases w.len() - i,
{
    if i < 0 || i >= w.len() {
        if labels.len() == 0 {
            Ok(acc)
        } else {
            Err(w.len() as int)
        }
    } else {
        let t = w[i];
        if is_label_def(t) {
            parse_acc(w, i + 1, labels.push(t.drop_last()), acc)
        } else if t == ".data"@ {
            let k = data_run(w, i + 1);
            if k == 0 || i + 1 + k > w.len() {
                Err(i)
            } else {
                parse_acc(
                    w,
                    i + 1 + k,
                    Seq::empty(),
                    acc.push((labels, ElemCore::Data(data_bytes(w, i + 1, k)))),
                )
            }
        } else {
            match arity(t) {
                None => Err(i),
                Some(n) => if i + 1 + n > w.len() {
                    Err(i)
                } else {
                    match lower(t, w.subrange(i + 1, i + 1 + n)) {
                        None => Err(i),
                        Some(c) => parse_acc(w, i + 1 + n, Seq::empty(), acc.push((labels, c))),
                    }
                },
            }
        }
    }
}

/// The elements of a source as labels and what lies under them.
pub open spec fn parse_spec(s: Seq<char>) -> Result<Seq<(Seq<Seq<char>>, ElemCore)>, int> {
    parse_acc(source_words(s), 0, Seq::empty(), Seq::empty())
}

/// Where in the source the word at position `i` starts, or its end.
pub open spec fn word_offset(s: Seq<char>, i: int) -> int {
    if 0 <= i < word_spans(s).len() {
        word_spans(s)[i].0
    } else {
        s.len() as int
    }
}


/// Every span lies within the text, start before end.
pub open spec fn spans_ok(s: Seq<char>, w: Seq<(usize, usize)>) -> bool {
    forall|k: int| 0 <= k < w.len() ==> (#[trigger] w[k]).0 <= w[k].1 <= s.len()
}

/// The words that the spans pick out of the text.
pub open spec fn words_of(s: Seq<char>, w: Seq<(usize, usize)>) -> Seq<Seq<char>> {
    Seq::new(w.len(), |k: int| s.subrange(w[k].0 as int, w[k].1 as int))
}

/// Whether word `k` is the text of `lit`.
fn wis(s: &Vec<char>, w: &Vec<(usize, usize)>, k: usize, lit: &str) -> (r: bool)
    requires
        spans_ok(s@, w@),
        k < w@.len(),
    ensures
        r == (words_of(s@, w@)[k as int] == lit@),
{
    word_is(s, w[k].0, w[k].1, lit)
}

/// The register that word `k` names.
fn wreg(s: &Vec<char>, w: &Vec<(usize, usize)>, k: usize) -> (r: Option<usize>)
    requires
        spans_ok(s@, w@),
        k < w@.len(),
    ensures
        match register_value(words_of(s@, w@)[k as int]) {
            Some(x) => r == Some(x as usize) && x < 16,
            None => r is None,
        },
{
    register(s, w[k].0, w[k].1)
}

/// The value of word `k` when it is a number of at most `max`.
fn wimm(s: &Vec<char>, w: &Vec<(usize, usize)>, k: usize, max: u16) -> (r: Option<u16>)
    requires
        spans_ok(s@, w@),
        k < w@.len(),
    ensures
        match imm(words_of(s@, w@)[k as int], max as nat) {
            Some(v) => r == Some(v as u16) && v <= max,
            None => r is None,
        },
{
    match number(s, w[k].0, w[k].1) {
        Some(v) => if v <= max {
            Some(v)
        } else {
            None
        },
        None => None,
    }
}

/// The text of word `k` as a string.
fn wstring(src: &str, s: &Vec<char>, w: &Vec<(usize, usize)>, k: usize) -> (r: String)
    requires
        src@ == s@,
        spans_ok(s@, w@),
        k < w@.len(),
    ensures
        r@ == words_of(s@, w@)[k as int],
{
    String::from_str(src.substring_char(w[k].0, w[k].1))
}

/// An encoded instruction as an element.
fn instr(i: Chip8Inst) -> (r: Option<ProgElement>)
    ensures
        r matches Some(e) && elem_labels(e) == Seq::<Seq<char>>::empty() && Some(elem_core(e))
            == enc(i),
{
    Some(ProgElement::Instr(u16::from(i)))
}

/// The instruction of a one-register mnemonic.
fn one_reg(s: &Vec<char>, w: &Vec<(usize, usize)>, k: usize, x: usize) -> (r: Chip8Inst)
    requires
        spans_ok(s@, w@),
        k < w@.len(),
    ensures
        r == one_reg_inst(words_of(s@, w@)[k as int], x),
{
    if wis(s, w, k, "skipeqk") {
        Chip8Inst::SkipEqKey(x)
    } else if wis(s, w, k, "skipnek") {
        Chip8Inst::SkipNeqKey(x)
    } else if wis(s, w, k, "read") {
        Chip8Inst::GetKey(x)
    } else if wis(s, w, k, "font") {
        Chip8Inst::LoadFont(x)
    } else if wis(s, w, k, "bcd") {
        Chip8Inst::BCDConvert(x)
    } else if wis(s, w, k, "str") {
        Chip8Inst::StoreMem(x)
    } else {
        Chip8Inst::LoadMem(x)
    }
}

/// The instruction of a two-register mnemonic.
fn two_reg(s: &Vec<char>, w: &Vec<(usize, usize)>, k: usize, x: usize, y: usize) -> (r: Chip8Inst)
    requires
        spans_ok(s@, w@),
        k < w@.len(),
    ensures
        r == two_reg_inst(words_of(s@, w@)[k as int], x, y),
{
    if wis(s, w, k, "or") {
        Chip8Inst::BinOr(x, y)
    } else if wis(s, w, k, "and") {
        Chip8Inst::BinAnd(x, y)
    } else if wis(s, w, k, "xor") {
        Chip8Inst::BinXor(x, y)
    } else if wis(s, w, k, "sub") {
        Chip8Inst::ArithSub(x, y)
    } else if wis(s, w, k, "subr") {
        Chip8Inst::ArithSubReverse(x, y)
    } else if wis(s, w, k, "shl") {
        Chip8Inst::ShiftLeft(x, y)
    } else {
        Chip8Inst::ShiftRight(x, y)
    }
}

/// The element that the mnemonic at word `i` with its `n` operands stands for.
fn lower_exec(src: &str, s: &Vec<char>, w: &Vec<(usize, usize)>, i: usize, n: usize) -> (r:
    Option<ProgElement>)
    requires
        src@ == s@,
        spans_ok(s@, w@),
        i + 1 + n <= w@.len() <= usize::MAX,
        arity(words_of(s@, w@)[i as int]) == Some(n as nat),
    ensures
        match lower(words_of(s@, w@)[i as int], words_of(s@, w@).subrange(i + 1, i + 1 + n)) {
            Some(c) => r matches Some(e) && elem_labels(e) == Seq::<Seq<char>>::empty()
                && elem_core(e) == c,
            None => r is None,
        },
{
    let ghost ws = words_of(s@, w@);
    let ghost o = ws.subrange(i + 1, i + 1 + n);
    assert(n >= 1 ==> o[0] == ws[i + 1]);
    assert(n >= 2 ==> o[1] == ws[i + 2]);
    assert(n >= 3 ==> o[2] == ws[i + 3]);
    if wis(s, w, i, "clr") {
        instr(Chip8Inst::ClearScreen)
    } else if wis(s, w, i, "retn") {
        instr(Chip8Inst::SubReturn)
    } else if wis(s, w, i, "mc") {
        match wimm(s, w, i + 1, 0xfff) {
            Some(a) => instr(Chip8Inst::MachineInst(a as usize)),
            None => None,
        }
    } else if wis(s, w, i, "jmp") || wis(s, w, i, "jmpv") || wis(s, w, i, "call") {
        match wimm(s, w, i + 1, 0xfff) {
            Some(a) => {
                if wis(s, w, i, "jmp") {
                    instr(Chip8Inst::Jump(a as usize))
                } else if wis(s, w, i, "jmpv") {
                    instr(Chip8Inst::JumpReg(a as usize))
                } else {
                    instr(Chip8Inst::SubCall(a as usize))
                }
            },
            None => {
                if ident(s, w[i + 1].0, w[i + 1].1) {
                    let l = wstring(src, s, w, i + 1);
                    if wis(s, w, i, "jmp") {
                        Some(ProgElement::Jump(l))
                    } else if wis(s, w, i, "jmpv") {
                        Some(ProgElement::JumpV(l))
                    } else {
                        Some(ProgElement::Call(l))
                    }
                } else {
                    None
                }
            },
        }
    } else if wis(s, w, i, "skipeqk") || wis(s, w, i, "skipnek") || wis(s, w, i, "read") || wis(
        s,
        w,
        i,
        "font",
    ) || wis(s, w, i, "bcd") || wis(s, w, i, "str") || wis(s, w, i, "load") {
        match wreg(s, w, i + 1) {
            Some(x) => instr(one_reg(s, w, i, x)),
            None => None,
        }
    } else if wis(s, w, i, "skipeq") || wis(s, w, i, "skipne") {
        let eq = wis(s, w, i, "skipeq");
        match wreg(s, w, i + 1) {
            Some(x) => match wimm(s, w, i + 2, 0xff) {
                Some(nn) => instr(
                    if eq {
                        Chip8Inst::SkipEqConst(x, nn as u8)
                    } else {
                        Chip8Inst::SkipNeqConst(x, nn as u8)
                    },
                ),
                None => match wreg(s, w, i + 2) {
                    Some(y) => instr(
                        if eq {
                            Chip8Inst::SkipEqReg(x, y)
                        } else {
                            Chip8Inst::SkipNeqReg(x, y)
                        },
                    ),
                    None => None,
                },
            },
            None => None,
        }
    } else if wis(s, w, i, "mov") {
        if wis(s, w, i + 1, "I") {
            match wimm(s, w, i + 2, 0xfff) {
                Some(a) => instr(Chip8Inst::SetIndex(a as usize)),
                None => None,
            }
        } else if wis(s, w, i + 1, "D") {
            match wreg(s, w, i + 2) {
                Some(x) => instr(Chip8Inst::SetDelay(x)),
                None => None,
            }
        } else if wis(s, w, i + 1, "S") {
            match wreg(s, w, i + 2) {
                Some(x) => instr(Chip8Inst::SetSound(x)),
                None => None,
            }
        } else {
            match wreg(s, w, i + 1) {
                Some(x) => if wis(s, w, i + 2, "D") {
                    instr(Chip8Inst::ReadDelay(x))
                } else {
                    match wimm(s, w, i + 2, 0xff) {
                        Some(nn) => instr(Chip8Inst::RegSet(x, nn as u8)),
                        None => match wreg(s, w, i + 2) {
                            Some(y) => instr(Chip8Inst::Assign(x, y)),
                            None => None,
                        },
                    }
                },
                None => None,
            }
        }
    } else if wis(s, w, i, "add") {
        if wis(s, w, i + 1, "I") {
            match wreg(s, w, i + 2) {
                Some(x) => instr(Chip8Inst::AddIndex(x)),
                None => None,
            }
        } else {
            match wreg(s, w, i + 1) {
                Some(x) => match wimm(s, w, i + 2, 0xff) {
                    Some(nn) => instr(Chip8Inst::RegAddNoCarry(x, nn as u8)),
                    None => match wreg(s, w, i + 2) {
                        Some(y) => instr(Chip8Inst::ArithAdd(x, y)),
                        None => None,
                    },
                },
                None => None,
            }
        }
    } else if wis(s, w, i, "rand") {
        match (wreg(s, w, i + 1), wimm(s, w, i + 2, 0xff)) {
            (Some(x), Some(nn)) => instr(Chip8Inst::Random(x, nn as u8)),
            _ => None,
        }
    } else if wis(s, w, i, "draw") {
        match (wreg(s, w, i + 1), wreg(s, w, i + 2), wimm(s, w, i + 3, 0xf)) {
            (Some(x), Some(y), Some(n)) => instr(Chip8Inst::Display(x, y, n as u8)),
            _ => None,
        }
    } else {
        match (wreg(s, w, i + 1), wreg(s, w, i + 2)) {
            (Some(x), Some(y)) => instr(two_reg(s, w, i, x, y)),
            _ => None,
        }
    }
}


/// The number of operands a mnemonic takes.
fn arity_exec(s: &Vec<char>, w: &Vec<(usize, usize)>, k: usize) -> (r: Option<usize>)
    requires
        spans_ok(s@, w@),
        k < w@.len(),
    ensures
        match arity(words_of(s@, w@)[k as int]) {
            Some(n) => r == Some(n as usize),
            None => r is None,
        },
{
    if wis(s, w, k, "draw") {
        Some(3)
    } else if wis(s, w, k, "clr") || wis(s, w, k, "retn") {
        Some(0)
    } else if wis(s, w, k, "mc") || wis(s, w, k, "jmp") || wis(s, w, k, "jmpv") || wis(
        s,
        w,
        k,
        "call",
    ) || wis(s, w, k, "skipeqk") || wis(s, w, k, "skipnek") || wis(s, w, k, "read") || wis(
        s,
        w,
        k,
        "font",
    ) || wis(s, w, k, "bcd") || wis(s, w, k, "str") || wis(s, w, k, "load") {
        Some(1)
    } else if wis(s, w, k, "skipeq") || wis(s, w, k, "skipne") || wis(s, w, k, "mov") || wis(
        s,
        w,
        k,
        "add",
    ) || wis(s, w, k, "or") || wis(s, w, k, "and") || wis(s, w, k, "xor") || wis(s, w, k, "sub")
        || wis(s, w, k, "subr") || wis(s, w, k, "shl") || wis(s, w, k, "shr") || wis(
        s,
        w,
        k,
        "rand",
    ) {
        Some(2)
    } else {
        None
    }
}

/// A run of `k` byte values from `j`, ended by the last word or by a word
/// that is no byte value, has length `k`.
proof fn lemma_data_run(w: Seq<Seq<char>>, j: int, k: nat)
    requires
        0 <= j,
        j + k <= w.len(),
        forall|q: int| 0 <= q < k ==> imm(#[trigger] w[j + q], 0xff) is Some,
        j + k == w.len() || imm(w[j + k], 0xff) is None,
    ensures
        data_run(w, j) == k,
    decreases k,
{
    if k > 0 {
        assert forall|q: int| 0 <= q < k - 1 implies imm(#[trigger] w[j + 1 + q], 0xff) is Some by {
            assert(imm(w[j + (q + 1)], 0xff) is Some);
        }
        lemma_data_run(w, j + 1, (k - 1) as nat);
        assert(imm(w[j + 0], 0xff) is Some);
    }
}

/// The elements so far as labels and what lies under them.
pub open spec fn items_of(v: Seq<ProgElement>) -> Seq<(Seq<Seq<char>>, ElemCore)> {
    v.map_values(|e: ProgElement| (elem_labels(e), elem_core(e)))
}

/// Put the labels `lab` on `core`, the first outermost.
fn wrap_labels(src: &str, s: &Vec<char>, lab: &Vec<(usize, usize)>, core: ProgElement) -> (r:
    ProgElement)
    requires
        src@ == s@,
        spans_ok(s@, lab@),
        elem_labels(core) == Seq::<Seq<char>>::empty(),
    ensures
        elem_labels(r) == words_of(s@, lab@),
        elem_core(r) == elem_core(core),
{
    let ghost names = words_of(s@, lab@);
    let mut e = core;
    let mut k: usize = lab.len();
    assert(names.subrange(k as int, names.len() as int) =~= Seq::<Seq<char>>::empty());
    while k > 0
        invariant
            k <= lab@.len(),
            names == words_of(s@, lab@),
            src@ == s@,
            spans_ok(s@, lab@),
            elem_labels(e) == names.subrange(k as int, names.len() as int),
            elem_core(e) == elem_core(core),
        decreases k,
    {
        k -= 1;
        let l = wstring(src, s, lab, k);
        e = ProgElement::LabelInstr(l, Box::new(e));
        assert(elem_labels(e) =~= names.subrange(k as int, names.len() as int));
    }
    assert(names.subrange(0, names.len() as int) =~= names);
    e
}

/// Parse assembly text into program elements.
pub fn parse(src: &str) -> (r: Result<Vec<ProgElement>, AsmError>)
    ensures
        match parse_spec(src@) {
            Ok(items) => r matches Ok(v) && items_of(v@) == items,
            Err(i) => r matches Err(AsmError::Syntax(p)) && p == word_offset(src@, i),
        },
{
    let s = chars_of(src);
    let w = tokenize(&s);
    let ghost ws = words_of(s@, w@);
    assert(ws =~= source_words(s@));
    let mut out: Vec<ProgElement> = Vec::new();
    let mut lab: Vec<(usize, usize)> = Vec::new();
    let mut i: usize = 0;
    let wl = w.len();
    assert(words_of(s@, lab@) =~= Seq::<Seq<char>>::empty());
    assert(items_of(out@) =~= Seq::<(Seq<Seq<char>>, ElemCore)>::empty());
    while i < wl
        invariant
            wl == w@.len(),
            src@ == s@,
            spans_ok(s@, w@),
            spans_ok(s@, lab@),
            ws == words_of(s@, w@),
            ws == source_words(s@),
            w@.len() == word_spans(s@).len(),
            forall|k: int|
                0 <= k < w@.len() ==> (#[trigger] w@[k]).0 as int == word_spans(s@)[k].0,
            i <= w@.len(),
            parse_acc(ws, i as int, words_of(s@, lab@), items_of(out@)) == parse_spec(s@),
        decreases w@.len() - i,
    {
        let (a, b) = w[i];
        let ghost t = ws[i as int];
        let ghost labs = words_of(s@, lab@);
        let ghost acc = items_of(out@);
        if b - a >= 2 && s[b - 1] == ':' && ident(&s, a, b - 1) {
            assert(t.drop_last() =~= s@.subrange(a as int, b - 1));
            assert(t.last() == s@[b - 1]);
            lab.push((a, b - 1));
            assert(words_of(s@, lab@) =~= labs.push(t.drop_last()));
            i += 1;
        } else {
            proof {
                if b - a >= 2 && s@[b - 1] == ':' {
                    assert(t.drop_last() =~= s@.subrange(a as int, b - 1));
                }
                assert(t.len() >= 2 ==> t.last() == s@[b - 1]);
            }
            if wis(&s, &w, i, ".data") {
                let mut bytes: Vec<u8> = Vec::new();
                let mut k: usize = 0;
                let mut go = true;
                while go && i + 1 + k < wl
                    invariant
                        wl == w@.len(),
                        spans_ok(s@, w@),
                        ws == words_of(s@, w@),
                        i < w@.len(),
                        i + 1 + k <= w@.len(),
                        bytes@ == data_bytes(ws, i + 1, k as nat),
                        forall|q: int| 0 <= q < k ==> imm(#[trigger] ws[i + 1 + q], 0xff) is Some,
                        !go ==> imm(ws[i + 1 + k], 0xff) is None && i + 1 + k < w@.len(),
                    decreases w@.len() - (i + 1 + k), (if go { 1int } else { 0int }),
                {
                    match wimm(&s, &w, i + 1 + k, 0xff) {
                        Some(v) => {
                            bytes.push(v as u8);
                            k += 1;
                            assert(bytes@ =~= data_bytes(ws, i + 1, k as nat));
                        },
                        None => {
                            go = false;
                        },
                    }
                }
                proof {
                    lemma_data_run(ws, i + 1, k as nat);
                }
                if k == 0 {
                    return Err(AsmError::Syntax(a));
                }
                let e = wrap_labels(src, &s, &lab, ProgElement::Data(bytes));
                out.push(e);
                lab = Vec::new();
                let ghost data = ElemCore::Data(data_bytes(ws, i + 1, k as nat));
                assert(items_of(out@) =~= acc.push((labs, data)));
                assert(words_of(s@, lab@) =~= Seq::<Seq<char>>::empty());
                i = i + 1 + k;
            } else {
                let n = match arity_exec(&s, &w, i) {
                    Some(n) => n,
                    None => {
                        return Err(AsmError::Syntax(a));
                    },
                };
                if n > wl - i - 1 {
                    return Err(AsmError::Syntax(a));
                }
                let core = match lower_exec(src, &s, &w, i, n) {
                    Some(c) => c,
                    None => {
                        return Err(AsmError::Syntax(a));
                    },
                };
                let e = wrap_labels(src, &s, &lab, core);
                out.push(e);
                lab = Vec::new();
                assert(items_of(out@) =~= acc.push((labs, elem_core(e))));
                assert(words_of(s@, lab@) =~= Seq::<Seq<char>>::empty());
                i = i + 1 + n;
            }
        }
    }
    if lab.len() == 0 {
        Ok(out)
    } else {
        Err(AsmError::Syntax(s.len()))
    }
}


/// Assemble text into a program image: parse it, then lay out the elements
/// and resolve their labels.
pub fn assemble(src: &str) -> (r: Result<Vec<u8>, AsmError>)
    ensures
        match parse_spec(src@) {
            Ok(items) => exists|prog: Seq<ProgElement>|
                items_of(prog) == items && #[trigger] assembles_to(prog, r),
            Err(i) => r matches Err(AsmError::Syntax(p)) && p == word_offset(src@, i),
        },
{
    match parse(src) {
        Ok(prog) => {
            let ghost p = prog@;
            let r = process_prog(prog);
            assert(assembles_to(p, r));
            r
        },
        Err(e) => Err(e),
    }
}

} // verus!
