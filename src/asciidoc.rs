use vstd::prelude::*;

use crate::markup::{join, Alignment};

verus! {

/// Renders result tables as Asciidoc markup.
pub struct AsciidocExporter {}

impl Default for AsciidocExporter {
    fn default() -> (r: Self)
        ensures
            r == (AsciidocExporter {}),
    {
        AsciidocExporter {}
    }
}

/// The column specifier of one alignment.
pub open spec fn alignment_spec(a: Alignment) -> Seq<char> {
    match a {
        Alignment::Left => "<"@,
        Alignment::Right => ">"@,
    }
}

/// The column specifiers of all alignments.
pub open spec fn alignment_specs(aligns: Seq<Alignment>) -> Seq<Seq<char>> {
    aligns.map_values(|a: Alignment| alignment_spec(a))
}

/// The characters of each cell.
pub open spec fn cell_texts(cells: Seq<&str>) -> Seq<Seq<char>> {
    cells.map_values(|c: &str| c@)
}

impl AsciidocExporter {
    /// The table's opening lines: the column specifiers, then the
    /// table delimiter.
    pub fn table_header(&self, cell_alignments: &[Alignment]) -> (r: String)
        ensures
            r@ == "[cols=\""@ + join(alignment_specs(cell_alignments@), ","@) + "\"]\n|==="@,
    {
        let mut specs = String::new();
        let mut i: usize = 0;
        while i < cell_alignments.len()
            invariant
                i <= cell_alignments@.len(),
                specs@ == join(alignment_specs(cell_alignments@.subrange(0, i as int)), ","@),
            decreases cell_alignments@.len() - i,
        {
            let ghost before = cell_alignments@.subrange(0, i as int);
            let ghost after = cell_alignments@.subrange(0, i as int + 1);
            if i > 0 {
                specs.append(",");
            }
            match cell_alignments[i] {
                Alignment::Left => specs.append("<"),
                Alignment::Right => specs.append(">"),
            }
            proof {
                assert(after.drop_last() =~= before);
                assert(alignment_specs(after).drop_last() =~= alignment_specs(before));
                if i == 0 {
                    assert(specs@ =~= join(alignment_specs(after), ","@));
                }
            }
            i = i + 1;
        }
        proof {
            assert(cell_alignments@.subrange(0, i as int) =~= cell_alignments@);
        }
        let mut r = String::from_str("[cols=\"");
        r.append(specs.as_str());
        r.append("\"]\n|===");
        r
    }

    /// The table's closing delimiter.
    pub fn table_footer(&self, _cell_alignments: &[Alignment]) -> (r: String)
        ensures
            r@ == "|===\n"@,
    {
        String::from_str("|===\n")
    }

    /// One table row: each cell on a line of its own.
    pub fn table_row(&self, cells: &[&str]) -> (r: String)
        ensures
            r@ == "\n| "@ + join(cell_texts(cells@), " \n| "@) + " \n"@,
    {
        let mut r = String::from_str("\n| ");
        let mut i: usize = 0;
        while i < cells.len()
            invariant
                i <= cells@.len(),
                r@ == "\n| "@ + join(cell_texts(cells@.subrange(0, i as int)), " \n| "@),
            decreases cells@.len() - i,
        {
            let ghost before = cells@.subrange(0, i as int);
            let ghost after = cells@.subrange(0, i as int + 1);
            let ghost prev = r@;
            if i > 0 {
                r.append(" \n| ");
            }
            r.append(cells[i]);
            proof {
                assert(after.drop_last() =~= before);
                assert(cell_texts(after).drop_last() =~= cell_texts(before));
                if i == 0 {
                    assert(join(cell_texts(after), " \n| "@) == cells@[0]@);
                    assert(r@ =~= "\n| "@ + join(cell_texts(after), " \n| "@));
                } else {
                    assert(r@ =~= "\n| "@ + join(cell_texts(after), " \n| "@));
                }
            }
            i = i + 1;
        }
        proof {
            assert(cells@.subrange(0, i as int) =~= cells@);
        }
        r.append(" \n");
        r
    }

    /// Asciidoc tables have no divider line between header and body.
    pub fn table_divider(&self, _cell_alignments: &[Alignment]) -> (r: String)
        ensures
            r@ == Seq::<char>::empty(),
    {
        String::new()
    }

    /// A command, set as inline code.
    pub fn command(&self, cmd: &str) -> (r: String)
        ensures
            r@ == "`"@ + cmd@ + "`"@,
    {
        let mut r = String::from_str("`");
        r.append(cmd);
        r.append("`");
        r
    }
}

/// The header of a results table whose times are given in the unit
/// `unit_short_name`: five columns, the command left-aligned.
pub fn cfg_test_table_header(unit_short_name: &str) -> (r: String)
    ensures
        r@ == "[cols=\"<,>,>,>,>\"]\n|===\n| Command \n| Mean ["@ + unit_short_name@
            + "] \n| Min ["@ + unit_short_name@ + "] \n| Max ["@ + unit_short_name@
            + "] \n| Relative \n"@,
{
    let mut r = String::from_str("[cols=\"<,>,>,>,>\"]\n|===\n| Command \n| Mean [");
    r.append(unit_short_name);
    r.append("] \n| Min [");
    r.append(unit_short_name);
    r.append("] \n| Max [");
    r.append(unit_short_name);
    r.append("] \n| Relative \n");
    r
}

} // verus!
