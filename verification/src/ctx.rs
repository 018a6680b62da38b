use vstd::prelude::*;

use crate::parser::ast::class::Class;
use crate::utils::table::{table_view, ClassTable, ClassTableM, Tables};
use crate::utils::util::{expand_tabs, fix_offset};
use crate::RUNTIME_ERR;

verus! {

/// Everything the compiler knows while it works: the classes read so far,
/// the text of the file at hand and its name, the constant tables and the
/// class table.
#[derive(Debug)]
pub struct CompileContext {
    pub classes: Vec<Class>,
    pub content: String,
    pub file_name: String,
    pub tables: Tables,
    pub class_table: ClassTable,
}

impl CompileContext {
    /// A fresh context: the string table holds the empty string, `Object`,
    /// the two print formats and the runtime error message; the integer
    /// table holds `0`.
    pub fn new() -> (c: Self)
        ensures
            table_view(c.tables.string_table@) == seq![""@, "Object"@, "%s"@, "%d"@, RUNTIME_ERR@],
            table_view(c.tables.int_table@) == seq!["0"@],
            c.tables.id_table@.len() == 0,
            c.classes@.len() == 0,
            c.content@ == Seq::<char>::empty(),
            c.file_name@ == Seq::<char>::empty(),
            c.class_table.model() == ClassTable::new_model(),
            c.class_table.classes.entries@.len() == 0,
    {
        let mut tables = Tables::new();
        tables.string_table.push(String::from_str(""));
        tables.string_table.push(String::from_str("Object"));
        tables.string_table.push(String::from_str("%s"));
        tables.string_table.push(String::from_str("%d"));
        tables.string_table.push(String::from_str(RUNTIME_ERR));
        tables.int_table.push(String::from_str("0"));
        let class_table = ClassTable::new();
        let c = CompileContext {
            classes: Vec::new(),
            content: String::new(),
            file_name: String::new(),
            tables,
            class_table,
        };
        assert(table_view(c.tables.string_table@) =~= seq![""@, "Object"@, "%s"@, "%d"@, RUNTIME_ERR@]);
        assert(table_view(c.tables.int_table@) =~= seq!["0"@]);
        c
    }

    /// Keeps the text of a file, each tab replaced by four spaces.
    pub fn preprocess(&mut self, raw: String)
        ensures
            final(self).content@ == expand_tabs(raw@),
            final(self).classes@ == old(self).classes@,
            final(self).file_name@ == old(self).file_name@,
            final(self).tables == old(self).tables,
            final(self).class_table == old(self).class_table,
    {
        self.content = fix_offset(raw);
    }
}

} // verus!
