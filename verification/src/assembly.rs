use vstd::prelude::*;

use crate::structures::{clone_atom, clone_block, Atom, CrystalInfo, StructureBlock};

verus! {

/// A declared outside type: the standard library's I/O error, carried
/// opaquely inside `ParseError` for the file-reading layer.
#[verifier::external_type_specification]
#[verifier::external_body]
pub struct ExIoError(std::io::Error);

/// A parse failure: an I/O error from reading the file, or the list of
/// lines that no rule of the format accepts.
#[derive(Debug)]
pub enum ParseError {
    IoError(std::io::Error),
    ParseError(Vec<String>),
}

/// One classified line of a structure file, as the format layer hands
/// it in: an atom line, a block header (a fresh block holding the
/// header's metadata), a cell-parameter line, a line no rule accepts,
/// or an accepted filler line.
pub enum ParsedLine {
    AtomLine(Atom),
    HeaderLine(StructureBlock),
    CellLine(CrystalInfo),
    IllegalLine(String),
    BlankLine,
}

/// The mathematical image of one block: plain values for every field.
pub struct BlockModel {
    pub number: u64,
    pub energy: i64,
    pub symmetry: Seq<char>,
    pub crystal: CrystalInfo,
    pub atoms: Seq<Atom>,
}

/// The mathematical image of a concrete block.
pub open spec fn block_view(b: StructureBlock) -> BlockModel {
    BlockModel {
        number: b.number,
        energy: b.energy,
        symmetry: b.symmetry@,
        crystal: b.crystal,
        atoms: b.atoms@,
    }
}

/// A block model with one atom appended.
pub open spec fn model_add_atom(b: BlockModel, a: Atom) -> BlockModel {
    BlockModel {
        number: b.number,
        energy: b.energy,
        symmetry: b.symmetry,
        crystal: b.crystal,
        atoms: b.atoms.push(a),
    }
}

/// A block model with its cell parameters replaced.
pub open spec fn model_set_cell(b: BlockModel, c: CrystalInfo) -> BlockModel {
    BlockModel {
        number: b.number,
        energy: b.energy,
        symmetry: b.symmetry,
        crystal: c,
        atoms: b.atoms,
    }
}

/// The finished blocks after consuming the first `k` lines.
pub open spec fn assembled_blocks(lines: Seq<ParsedLine>, k: int) -> Seq<BlockModel>
    decreases k,
{
    if k <= 0 {
        Seq::empty()
    } else {
        let prev = assembled_blocks(lines, k - 1);
        match lines[k - 1] {
            ParsedLine::HeaderLine(h) => {
                match assembled_current(lines, k - 1) {
                    Some(b) => prev.push(b),
                    None => prev,
                }
            },
            _ => prev,
        }
    }
}

/// The block under construction after consuming the first `k` lines:
/// `None` until the first header was seen.  An atom line joins it, a
/// cell line replaces its cell parameters, a header finishes it and
/// starts the next; atom and cell lines before any header are dropped.
pub open spec fn assembled_current(lines: Seq<ParsedLine>, k: int) -> Option<BlockModel>
    decreases k,
{
    if k <= 0 {
        None
    } else {
        let prev = assembled_current(lines, k - 1);
        match lines[k - 1] {
            ParsedLine::AtomLine(a) => {
                match prev {
                    Some(b) => Some(model_add_atom(b, a)),
                    None => None,
                }
            },
            ParsedLine::HeaderLine(h) => Some(block_view(h)),
            ParsedLine::CellLine(c) => {
                match prev {
                    Some(b) => Some(model_set_cell(b, c)),
                    None => None,
                }
            },
            _ => prev,
        }
    }
}

/// The unacceptable lines among the first `k`, in input order.
pub open spec fn assembled_errors(lines: Seq<ParsedLine>, k: int) -> Seq<Seq<char>>
    decreases k,
{
    if k <= 0 {
        Seq::empty()
    } else {
        let prev = assembled_errors(lines, k - 1);
        match lines[k - 1] {
            ParsedLine::IllegalLine(s) => prev.push(s@),
            _ => prev,
        }
    }
}

/// All finished blocks, the one still under construction included.
pub open spec fn assembled_all(lines: Seq<ParsedLine>) -> Seq<BlockModel> {
    let blocks = assembled_blocks(lines, lines.len() as int);
    match assembled_current(lines, lines.len() as int) {
        Some(b) => blocks.push(b),
        None => blocks,
    }
}

/// The full contract of the block assembler, over any outcome.  With
/// `ignore_parse_error` unset and at least one unacceptable line, the
/// result is exactly the list of those lines as a parse failure.
/// Otherwise the result is the assembled block list, or `None` when no
/// block was assembled.
pub open spec fn assembly_outcome_ok(
    r: Result<Option<Vec<StructureBlock>>, ParseError>,
    lines: Seq<ParsedLine>,
    ignore_parse_error: bool,
) -> bool {
    if !ignore_parse_error && assembled_errors(lines, lines.len() as int).len() > 0 {
        &&& r is Err
        &&& r->Err_0 is ParseError
        &&& r->Err_0->ParseError_0@.len() == assembled_errors(lines, lines.len() as int).len()
        &&& forall|i: int|
            0 <= i < r->Err_0->ParseError_0@.len() ==> (#[trigger] r->Err_0->ParseError_0@[i])@
                == assembled_errors(lines, lines.len() as int)[i]
    } else if assembled_all(lines).len() > 0 {
        &&& r is Ok
        &&& r->Ok_0 is Some
        &&& r->Ok_0->Some_0@.len() == assembled_all(lines).len()
        &&& forall|i: int|
            0 <= i < r->Ok_0->Some_0@.len() ==> block_view(#[trigger] r->Ok_0->Some_0@[i])
                == assembled_all(lines)[i]
    } else {
        &&& r is Ok
        &&& r->Ok_0 is None
    }
}

/// Assemble structure blocks from a classified line stream: atom lines
/// join the block under construction, header lines finish it and start
/// the next, cell lines set its cell parameters, and unacceptable lines
/// fail the parse unless `ignore_parse_error` is set.
pub fn parse_structure(lines: &Vec<ParsedLine>, ignore_parse_error: bool) -> (r: Result<
    Option<Vec<StructureBlock>>,
    ParseError,
>)
    ensures
        assembly_outcome_ok(r, lines@, ignore_parse_error),
{
    let mut blocks: Vec<StructureBlock> = Vec::new();
    let mut current: Option<StructureBlock> = None;
    let mut errors: Vec<String> = Vec::new();
    let mut k: usize = 0;
    while k < lines.len()
        invariant
            k <= lines@.len(),
            blocks@.len() == assembled_blocks(lines@, k as int).len(),
            forall|i: int|
                0 <= i < blocks@.len() ==> block_view(#[trigger] blocks@[i]) == assembled_blocks(
                    lines@,
                    k as int,
                )[i],
            match current {
                Some(b) => assembled_current(lines@, k as int) == Some(block_view(b)),
                None => assembled_current(lines@, k as int) is None,
            },
            errors@.len() == assembled_errors(lines@, k as int).len(),
            forall|i: int|
                0 <= i < errors@.len() ==> (#[trigger] errors@[i])@ == assembled_errors(
                    lines@,
                    k as int,
                )[i],
        decreases lines@.len() - k,
    {
        match &lines[k] {
            ParsedLine::AtomLine(a) => {
                match &mut current {
                    Some(b) => {
                        b.atoms.push(clone_atom(a));
                    },
                    None => {},
                }
            },
            ParsedLine::HeaderLine(h) => {
                let prev = current;
                match prev {
                    Some(b) => {
                        blocks.push(b);
                    },
                    None => {},
                }
                current = Some(clone_block(h));
            },
            ParsedLine::CellLine(c) => {
                match &mut current {
                    Some(b) => {
                        b.crystal = *c;
                    },
                    None => {},
                }
            },
            ParsedLine::IllegalLine(s) => {
                errors.push(s.clone());
            },
            ParsedLine::BlankLine => {},
        }
        k = k + 1;
    }
    if !ignore_parse_error && errors.len() > 0 {
        return Err(ParseError::ParseError(errors));
    }
    match current {
        Some(b) => {
            blocks.push(b);
        },
        None => {},
    }
    if blocks.len() > 0 {
        Ok(Some(blocks))
    } else {
        Ok(None)
    }
}

} // verus!
