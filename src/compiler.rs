//! The assembler's back end: a program as a list of elements, laid out from
//! the program start, with label references resolved in a second pass.

use vstd::prelude::*;

use crate::insts::{encode_spec, Chip8Inst};
use crate::machine::{MAX_ROM_SIZE, PROGRAM_START};

verus! {

/// One element of an assembled program.
#[derive(Debug)]
pub enum ProgElement {
    /// Raw bytes.
    Data(Vec<u8>),
    /// An encoded instruction.
    Instr(u16),
    /// A jump to a label.
    Jump(String),
    /// A subroutine call to a label.
    Call(String),
    /// A jump to a label plus V0.
    JumpV(String),
    /// A label on the element that follows it.
    LabelInstr(String, Box<ProgElement>),
}

/// Why a program could not be assembled.
#[derive(Debug)]
pub enum AsmError {
    /// The program does not fit in memory.
    TooLarge,
    /// A label is defined more than once.
    DuplicateLabel(String),
    /// A label is used but never defined.
    UnresolvedLabel(String),
    /// The source text does not parse; the offset, in characters, of the
    /// word where parsing stopped.
    Syntax(usize),
}

/// An element with its labels taken off.
pub enum ElemCore {
    Data(Seq<u8>),
    Instr(u16),
    Jump(Seq<char>),
    Call(Seq<char>),
    JumpV(Seq<char>),
}

/// What an element is under its labels.
pub open spec fn elem_core(e: ProgElement) -> ElemCore
    decreases e,
{
    match e {
        ProgElement::Data(b) => ElemCore::Data(b@),
        ProgElement::Instr(w) => ElemCore::Instr(w),
        ProgElement::Jump(l) => ElemCore::Jump(l@),
        ProgElement::Call(l) => ElemCore::Call(l@),
        ProgElement::JumpV(l) => ElemCore::JumpV(l@),
        ProgElement::LabelInstr(_, inner) => elem_core(*inner),
    }
}

/// The bytes an element takes up.
pub open spec fn elem_size(e: ProgElement) -> nat
    decreases e,
{
    match e {
        ProgElement::Data(b) => b@.len(),
        ProgElement::LabelInstr(_, inner) => elem_size(*inner),
        _ => 2,
    }
}

/// The labels an element carries, outermost first.
pub open spec fn elem_labels(e: ProgElement) -> Seq<Seq<char>>
    decreases e,
{
    match e {
        ProgElement::LabelInstr(l, inner) => seq![l@] + elem_labels(*inner),
        _ => Seq::empty(),
    }
}

/// The label an element refers to, if any.
pub open spec fn elem_ref(e: ProgElement) -> Option<Seq<char>>
    decreases e,
{
    match e {
        ProgElement::Jump(l) | ProgElement::Call(l) | ProgElement::JumpV(l) => Some(l@),
        ProgElement::LabelInstr(_, inner) => elem_ref(*inner),
        _ => None,
    }
}

/// The bytes the elements take up together.
pub open spec fn total_size(elems: Seq<ProgElement>) -> nat
    decreases elems.len(),
{
    if elems.len() == 0 {
        0
    } else {
        total_size(elems.drop_last()) + elem_size(elems.last())
    }
}

/// Each label with its address, in program order: an element's labels get
/// the address where the element starts.
pub open spec fn label_table(elems: Seq<ProgElement>) -> Seq<(Seq<char>, u16)>
    decreases elems.len(),
{
    if elems.len() == 0 {
        Seq::empty()
    } else {
        let pre = elems.drop_last();
        let addr = (PROGRAM_START + total_size(pre)) as u16;
        label_table(pre) + elem_labels(elems.last()).map_values(|l: Seq<char>| (l, addr))
    }
}

/// Whether some label occurs twice in a table.
pub open spec fn has_duplicate(t: Seq<(Seq<char>, u16)>) -> bool {
    exists|i: int, j: int| 0 <= i < j < t.len() && #[trigger] t[i].0 == #[trigger] t[j].0
}

/// The address of `name` in a table.
pub open spec fn lookup(t: Seq<(Seq<char>, u16)>, name: Seq<char>) -> Option<u16>
    decreases t.len(),
{
    if t.len() == 0 {
        None
    } else if t.last().0 == name {
        Some(t.last().1)
    } else {
        lookup(t.drop_last(), name)
    }
}

/// A word as two bytes, high byte first.
pub open spec fn be_bytes(w: u16) -> Seq<u8> {
    seq![(w / 256) as u8, (w % 256) as u8]
}

/// The bytes of an element, or `None` when it refers to a label that the
/// table lacks.
pub open spec fn elem_bytes(e: ProgElement, t: Seq<(Seq<char>, u16)>) -> Option<Seq<u8>>
    decreases e,
{
    match e {
        ProgElement::Data(b) => Some(b@),
        ProgElement::Instr(w) => Some(be_bytes(w)),
        ProgElement::Jump(l) => match lookup(t, l@) {
            Some(a) => Some(be_bytes(encode_spec(Chip8Inst::Jump(a as usize)))),
            None => None,
        },
        ProgElement::Call(l) => match lookup(t, l@) {
            Some(a) => Some(be_bytes(encode_spec(Chip8Inst::SubCall(a as usize)))),
            None => None,
        },
        ProgElement::JumpV(l) => match lookup(t, l@) {
            Some(a) => Some(be_bytes(encode_spec(Chip8Inst::JumpReg(a as usize)))),
            None => None,
        },
        ProgElement::LabelInstr(_, inner) => elem_bytes(*inner, t),
    }
}

/// The bytes of all the elements one after another, or `None` when one of
/// them refers to a label that the table lacks.
pub open spec fn image(elems: Seq<ProgElement>, t: Seq<(Seq<char>, u16)>) -> Option<Seq<u8>>
    decreases elems.len(),
{
    if elems.len() == 0 {
        Some(Seq::empty())
    } else {
        match (image(elems.drop_last(), t), elem_bytes(elems.last(), t)) {
            (Some(a), Some(b)) => Some(a + b),
            _ => None,
        }
    }
}

/// A table of labels as plain values.
pub open spec fn table_view(locs: Seq<(String, u16)>) -> Seq<(Seq<char>, u16)> {
    locs.map_values(|p: (String, u16)| (p.0@, p.1))
}

/// The address of `name` in `locs`, searching from the most recent entry.
fn find_label(locs: &Vec<(String, u16)>, name: &String) -> (r: Option<u16>)
    ensures
        r == lookup(table_view(locs@), name@),
{
    let mut k: usize = locs.len();
    assert(locs@.take(k as int) =~= locs@);
    while k > 0
        invariant
            k <= locs@.len(),
            lookup(table_view(locs@), name@) == lookup(table_view(locs@.take(k as int)), name@),
        decreases k,
    {
        let ghost t = table_view(locs@.take(k as int));
        assert(table_view(locs@.take(k as int)).drop_last() =~= table_view(
            locs@.take(k - 1),
        ));
        if locs[k - 1].0 == *name {
            return Some(locs[k - 1].1);
        }
        k -= 1;
    }
    assert(table_view(locs@.take(0)) =~= Seq::<(Seq<char>, u16)>::empty());
    None
}

impl ProgElement {
    /// The bytes of this element, with label references looked up in `locs`.
    pub fn into_bytes(&self, locs: &Vec<(String, u16)>) -> (r: Result<Vec<u8>, AsmError>)
        ensures
            match elem_bytes(*self, table_view(locs@)) {
                Some(b) => r matches Ok(v) && v@ == b,
                None => r matches Err(AsmError::UnresolvedLabel(l)) && elem_ref(*self) == Some(
                    l@,
                ) && lookup(table_view(locs@), l@).is_none(),
            },
        decreases *self,
    {
        match self {
            ProgElement::LabelInstr(_, elem) => elem.into_bytes(locs),
            ProgElement::Instr(op) => Ok(word_bytes(*op)),
            ProgElement::Data(data) => Ok(data.clone()),
            ProgElement::Jump(loc) => match find_label(locs, loc) {
                Some(addr) => Ok(word_bytes(u16::from(Chip8Inst::Jump(addr as usize)))),
                None => Err(AsmError::UnresolvedLabel(loc.clone())),
            },
            ProgElement::Call(loc) => match find_label(locs, loc) {
                Some(addr) => Ok(word_bytes(u16::from(Chip8Inst::SubCall(addr as usize)))),
                None => Err(AsmError::UnresolvedLabel(loc.clone())),
            },
            ProgElement::JumpV(loc) => match find_label(locs, loc) {
                Some(addr) => Ok(word_bytes(u16::from(Chip8Inst::JumpReg(addr as usize)))),
                None => Err(AsmError::UnresolvedLabel(loc.clone())),
            },
        }
    }
}

/// A word as two bytes, high byte first.
fn word_bytes(w: u16) -> (r: Vec<u8>)
    ensures
        r@ == be_bytes(w),
{
    let mut v: Vec<u8> = Vec::new();
    v.push((w / 256) as u8);
    v.push((w % 256) as u8);
    v
}


/// What a lookup finds is in the table, and what it misses is not.
proof fn lemma_lookup(t: Seq<(Seq<char>, u16)>, name: Seq<char>)
    ensures
        lookup(t, name) is None ==> forall|i: int| 0 <= i < t.len() ==> #[trigger] t[i].0 != name,
        lookup(t, name) is Some ==> exists|i: int| 0 <= i < t.len() && #[trigger] t[i].0 == name,
    decreases t.len(),
{
    if t.len() > 0 {
        lemma_lookup(t.drop_last(), name);
        assert forall|i: int| 0 <= i < t.len() - 1 implies #[trigger] t[i] == t.drop_last()[i] by {}
        if lookup(t, name) is Some && t.last().0 != name {
            let i = choose|i: int| 0 <= i < t.len() - 1 && #[trigger] t.drop_last()[i].0 == name;
            assert(t[i].0 == name);
        }
    }
}

/// Facts about a prefix of a program: it is no larger, its labels start the
/// program's table, and when its bytes cannot be resolved neither can the
/// program's.
proof fn lemma_prefix(s: Seq<ProgElement>, k: int, t: Seq<(Seq<char>, u16)>)
    requires
        0 <= k <= s.len(),
    ensures
        total_size(s.take(k)) <= total_size(s),
        label_table(s.take(k)).len() <= label_table(s).len(),
        label_table(s.take(k)) == label_table(s).take(label_table(s.take(k)).len() as int),
        image(s.take(k), t) is None ==> image(s, t) is None,
    decreases s.len(),
{
    if k == s.len() {
        assert(s.take(k) =~= s);
        assert(label_table(s).take(label_table(s).len() as int) =~= label_table(s));
    } else {
        assert(s.drop_last().take(k) =~= s.take(k));
        lemma_prefix(s.drop_last(), k, t);
        let a = label_table(s.take(k));
        let b = label_table(s.drop_last());
        assert(label_table(s).take(a.len() as int) =~= b.take(a.len() as int));
    }
}

/// A duplicate in part of a table is a duplicate in the whole.
proof fn lemma_duplicate_prefix(t: Seq<(Seq<char>, u16)>, n: int, l: Seq<char>)
    requires
        0 <= n <= t.len(),
        exists|i: int, j: int| 0 <= i < j < n && t.take(n)[i].0 == l && t.take(n)[j].0 == l,
    ensures
        exists|i: int, j: int| 0 <= i < j < t.len() && t[i].0 == l && t[j].0 == l,
{
    let (i, j) = choose|i: int, j: int|
        0 <= i < j < n && t.take(n)[i].0 == l && t.take(n)[j].0 == l;
    assert(t[i].0 == l && t[j].0 == l);
}

/// The bytes an element takes up.
fn size_of(e: &ProgElement) -> (r: usize)
    ensures
        r == elem_size(*e),
    decreases *e,
{
    match e {
        ProgElement::Data(b) => b.len(),
        ProgElement::LabelInstr(_, inner) => size_of(inner),
        _ => 2,
    }
}

/// Add the labels of `e` at `addr` to `locs`, failing on a label that is
/// already there.
fn add_labels(e: &ProgElement, addr: u16, locs: &mut Vec<(String, u16)>) -> (r: Result<
    (),
    AsmError,
>)
    requires
        !has_duplicate(table_view(old(locs)@)),
    ensures
        ({
            let t = table_view(old(locs)@) + elem_labels(*e).map_values(
                |l: Seq<char>| (l, addr),
            );
            &&& r is Ok <==> !has_duplicate(t)
            &&& r is Ok ==> table_view(final(locs)@) == t
            &&& r is Err ==> (r matches Err(AsmError::DuplicateLabel(l)) && exists|i: int, j: int|
                0 <= i < j < t.len() && t[i].0 == l@ && t[j].0 == l@)
        }),
    decreases *e,
{
    let ghost t0 = table_view(locs@);
    match e {
        ProgElement::LabelInstr(l, inner) => {
            let ghost t = t0 + elem_labels(*e).map_values(|q: Seq<char>| (q, addr));
            let ghost rest = elem_labels(**inner).map_values(|q: Seq<char>| (q, addr));
            assert(t =~= t0.push((l@, addr)) + rest);
            proof {
                lemma_lookup(t0, l@);
            }
            match find_label(locs, l) {
                Some(_) => {
                    proof {
                        let i = choose|i: int| 0 <= i < t0.len() && #[trigger] t0[i].0 == l@;
                        assert(t[i].0 == l@ && t[t0.len() as int].0 == l@);
                    }
                    return Err(AsmError::DuplicateLabel(l.clone()));
                },
                None => {},
            }
            locs.push((l.clone(), addr));
            assert(table_view(locs@) =~= t0.push((l@, addr)));
            add_labels(inner, addr, locs)
        },
        _ => {
            assert(t0 + elem_labels(*e).map_values(|q: Seq<char>| (q, addr)) =~= t0);
            Ok(())
        },
    }
}

/// Check that the program fits in memory.
fn check_size(elems: &Vec<ProgElement>) -> (r: Result<usize, AsmError>)
    ensures
        total_size(elems@) <= MAX_ROM_SIZE ==> r == Ok::<usize, AsmError>(
            total_size(elems@) as usize,
        ),
        total_size(elems@) > MAX_ROM_SIZE ==> r matches Err(AsmError::TooLarge),
{
    let mut cursor: usize = 0;
    let mut k: usize = 0;
    while k < elems.len()
        invariant
            k <= elems@.len(),
            cursor == total_size(elems@.take(k as int)),
            cursor <= MAX_ROM_SIZE,
        decreases elems@.len() - k,
    {
        assert(elems@.take(k + 1).drop_last() =~= elems@.take(k as int));
        let n = size_of(&elems[k]);
        if n > MAX_ROM_SIZE - cursor {
            proof {
                lemma_prefix(elems@, k + 1, Seq::empty());
            }
            return Err(AsmError::TooLarge);
        }
        cursor += n;
        k += 1;
    }
    assert(elems@.take(k as int) =~= elems@);
    Ok(cursor)
}

/// The address of every label, in program order. A label defined twice is
/// an error.
pub fn label_addresses(elems: &Vec<ProgElement>) -> (r: Result<Vec<(String, u16)>, AsmError>)
    requires
        total_size(elems@) <= MAX_ROM_SIZE,
    ensures
        r is Ok <==> !has_duplicate(label_table(elems@)),
        r matches Ok(locs) ==> table_view(locs@) == label_table(elems@),
        r is Err ==> (r matches Err(AsmError::DuplicateLabel(l)) && exists|i: int, j: int|
            0 <= i < j < label_table(elems@).len() && label_table(elems@)[i].0 == l@
                && label_table(elems@)[j].0 == l@),
{
    let mut locs: Vec<(String, u16)> = Vec::new();
    let mut pc: usize = PROGRAM_START;
    let mut k: usize = 0;
    assert(table_view(locs@) =~= label_table(elems@.take(0)));
    while k < elems.len()
        invariant
            k <= elems@.len(),
            total_size(elems@) <= MAX_ROM_SIZE,
            pc == PROGRAM_START + total_size(elems@.take(k as int)),
            table_view(locs@) == label_table(elems@.take(k as int)),
            !has_duplicate(table_view(locs@)),
        decreases elems@.len() - k,
    {
        assert(elems@.take(k + 1).drop_last() =~= elems@.take(k as int));
        proof {
            lemma_prefix(elems@, k + 1, Seq::empty());
        }
        let e = &elems[k];
        let n = size_of(e);
        match add_labels(e, pc as u16, &mut locs) {
            Ok(()) => {},
            Err(AsmError::DuplicateLabel(l)) => {
                proof {
                    let t = label_table(elems@.take(k + 1));
                    let all = label_table(elems@);
                    assert(exists|i: int, j: int|
                        0 <= i < j < t.len() && all.take(t.len() as int)[i].0 == l@ && all.take(
                            t.len() as int,
                        )[j].0 == l@);
                    lemma_duplicate_prefix(all, t.len() as int, l@);
                    let (i, j) = choose|i: int, j: int|
                        0 <= i < j < all.len() && all[i].0 == l@ && all[j].0 == l@;
                    assert(has_duplicate(all));
                }
                return Err(AsmError::DuplicateLabel(l));
            },
            Err(err) => {
                return Err(err);
            },
        }
        pc += n;
        k += 1;
    }
    assert(elems@.take(k as int) =~= elems@);
    Ok(locs)
}

/// What assembling `prog` gives: an error when it does not fit in memory,
/// else when a label is defined twice, else when a reference cannot be
/// resolved; otherwise the bytes of the laid-out program.
pub open spec fn assembles_to(prog: Seq<ProgElement>, r: Result<Vec<u8>, AsmError>) -> bool {
    &&& (total_size(prog) > MAX_ROM_SIZE) == (r matches Err(AsmError::TooLarge))
    &&& total_size(prog) <= MAX_ROM_SIZE ==> (has_duplicate(label_table(prog)) == (
    r matches Err(AsmError::DuplicateLabel(_))))
    &&& r matches Err(AsmError::DuplicateLabel(l)) ==> exists|i: int, j: int|
        0 <= i < j < label_table(prog).len() && label_table(prog)[i].0 == l@
            && label_table(prog)[j].0 == l@
    &&& total_size(prog) <= MAX_ROM_SIZE && !has_duplicate(label_table(prog)) ==> match image(
        prog,
        label_table(prog),
    ) {
        Some(b) => r matches Ok(v) && v@ == b,
        None => r matches Err(AsmError::UnresolvedLabel(l)) && (exists|i: int|
            0 <= i < prog.len() && elem_ref(#[trigger] prog[i]) == Some(l@)) && lookup(
            label_table(prog),
            l@,
        ) is None,
    }
}

/// Assemble a program: lay its elements out from the program start, resolve
/// label references, and concatenate the bytes.
pub fn process_prog(prog: Vec<ProgElement>) -> (r: Result<Vec<u8>, AsmError>)
    ensures
        assembles_to(prog@, r),
{
    match check_size(&prog) {
        Ok(_) => {},
        Err(e) => {
            return Err(e);
        },
    }
    let lbls = match label_addresses(&prog) {
        Ok(l) => l,
        Err(e) => {
            return Err(e);
        },
    };
    let ghost t = label_table(prog@);
    let mut bytes: Vec<u8> = Vec::new();
    let mut k: usize = 0;
    assert(prog@.take(0) =~= Seq::<ProgElement>::empty());
    while k < prog.len()
        invariant
            k <= prog@.len(),
            table_view(lbls@) == t,
            t == label_table(prog@),
            total_size(prog@) <= MAX_ROM_SIZE,
            !has_duplicate(t),
            image(prog@.take(k as int), t) == Some(bytes@),
        decreases prog@.len() - k,
    {
        assert(prog@.take(k + 1).drop_last() =~= prog@.take(k as int));
        match prog[k].into_bytes(&lbls) {
            Ok(b) => {
                let mut b = b;
                bytes.append(&mut b);
            },
            Err(e) => {
                proof {
                    assert(prog@.take(k + 1).last() == prog@[k as int]);
                    assert(elem_bytes(prog@[k as int], t) is None);
                    lemma_prefix(prog@, k + 1, t);
                }
                return Err(e);
            },
        }
        k += 1;
    }
    assert(prog@.take(k as int) =~= prog@);
    Ok(bytes)
}

} // verus!
