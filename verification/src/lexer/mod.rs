use vstd::prelude::*;

pub mod lexer;
pub mod token;

verus! {

pub type LineNum = usize;

pub type Off = usize;

/// A place in a source file: its line, counted from 1, and the column
/// reached on that line.
#[derive(Debug, Clone, Copy, PartialEq, Eq, Structural)]
pub struct Position {
    pub row: usize,
    pub column: usize,
}

impl Position {
    pub fn new(row: usize, column: usize) -> (p: Self)
        ensures
            p.row == row,
            p.column == column,
    {
        Self { row, column }
    }
}

/// A lexer over the text that the context holds.
pub fn lexer_parse(ctx: crate::ctx::CompileContext) -> (l: self::lexer::Lexer)
    requires
        ctx.content@.len() < usize::MAX,
    ensures
        l.wf(),
        l.state() == (self::lexer::LexState {
            line: 1,
            offset: 0,
            rest: ctx.content@,
            after_asm: false,
            strings: crate::utils::table::table_view(ctx.tables.string_table@),
            ints: crate::utils::table::table_view(ctx.tables.int_table@),
            ids: crate::utils::table::table_view(ctx.tables.id_table@),
            file: ctx.file_name@,
        }),
        l.context() == ctx,
{
    self::lexer::Lexer::new(ctx)
}

/// The position that stands for "nowhere in the source".
pub fn empty_position() -> (p: Position)
    ensures
        p.row == 0,
        p.column == 0,
{
    Position { row: 0, column: 0 }
}

} // verus!
