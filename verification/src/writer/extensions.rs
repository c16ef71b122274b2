//! The `x-…` extension table of operations and schemas.

use vstd::prelude::*;
use vstd::string::*;
use crate::model::{JsonKind, JsonLiteral};
use crate::writer::markdown::{row_line, table_text, Table};
use crate::text::views;

verus! {

/// How a scalar extension value is shown; `None` for null, arrays and objects.
pub open spec fn scalar_display_spec(v: JsonLiteral) -> Option<Seq<char>> {
    match v.kind {
        JsonKind::String => match v.string_value {
            Some(s) => Some(s@),
            None => None,
        },
        JsonKind::Bool | JsonKind::Number => Some(v.text@),
        _ => None,
    }
}

pub fn scalar_display(v: &JsonLiteral) -> (r: Option<String>)
    ensures
        crate::writer::refs::opt_view(r) == scalar_display_spec(*v),
{
    match v.kind {
        JsonKind::String => match &v.string_value {
            Some(s) => Some(s.clone()),
            None => None,
        },
        JsonKind::Bool | JsonKind::Number => Some(v.text.clone()),
        _ => None,
    }
}

/// The rows of the extension table: the scalar extensions, in order, as `(key, value)`.
pub open spec fn extension_rows(ext: Seq<(String, JsonLiteral)>) -> Seq<(Seq<char>, Seq<char>)>
    decreases ext.len(),
{
    if ext.len() == 0 {
        seq![]
    } else {
        let prefix = extension_rows(ext.drop_last());
        match scalar_display_spec(ext.last().1) {
            Some(v) => prefix.push((ext.last().0@, v)),
            None => prefix,
        }
    }
}

pub open spec fn extension_row_line(row: (Seq<char>, Seq<char>)) -> Seq<char> {
    row_line(seq!["`"@ + row.0 + "`"@, "`"@ + row.1 + "`"@])
}

/// `### Extensions` and a table of the scalar extensions, or nothing when there is none.
pub open spec fn extensions_table_spec(ext: Seq<(String, JsonLiteral)>) -> Seq<char> {
    let rows = extension_rows(ext);
    if rows.len() == 0 {
        seq![]
    } else {
        "### Extensions\n\n"@ + table_text(
            seq![" "@ + "Extension"@ + " "@, " "@ + "Value"@ + " "@],
            rows.map_values(|r: (Seq<char>, Seq<char>)| extension_row_line(r)),
        )
    }
}

/// Wraps `s` in backticks.
pub fn backticked(s: &str) -> (r: String)
    ensures
        r@ == "`"@ + s@ + "`"@,
{
    let mut r = String::from_str("`");
    r.append(s);
    r.append("`");
    r
}

pub fn render_extensions_table(extensions: &Vec<(String, JsonLiteral)>) -> (r: String)
    ensures
        r@ == extensions_table_spec(extensions@),
{
    let headers: [&str; 2] = ["Extension", "Value"];
    let mut table = Table::new(&headers);
    let ghost header = views(table.header_cells@);
    assert(header =~= seq![" "@ + "Extension"@ + " "@, " "@ + "Value"@ + " "@]);
    let mut any = false;
    let mut i: usize = 0;
    while i < extensions.len()
        invariant
            i <= extensions@.len(),
            views(table.header_cells@) == header,
            any == (extension_rows(extensions@.take(i as int)).len() > 0),
            views(table.rows@) == extension_rows(extensions@.take(i as int)).map_values(
                |r: (Seq<char>, Seq<char>)| extension_row_line(r),
            ),
        decreases extensions@.len() - i,
    {
        assert(extensions@.take(i + 1).drop_last() =~= extensions@.take(i as int));
        if let Some(val) = scalar_display(&extensions[i].1) {
            let k = backticked(extensions[i].0.as_str());
            let v = backticked(val.as_str());
            let ghost before = views(table.rows@);
            let arr: [&str; 2] = [k.as_str(), v.as_str()];
            table.row(&arr);
            proof {
                let cells = arr@.map_values(|c: &str| c@);
                assert(cells =~= seq!["`"@ + extensions@[i as int].0@ + "`"@, "`"@ + val@ + "`"@]);
                let rows = extension_rows(extensions@.take(i + 1));
                assert(rows == extension_rows(extensions@.take(i as int)).push((extensions@[i as int].0@, val@)));
                assert(views(table.rows@) =~= rows.map_values(|r: (Seq<char>, Seq<char>)| extension_row_line(r)));
            }
            any = true;
        }
        i += 1;
    }
    assert(extensions@.take(extensions@.len() as int) =~= extensions@);
    if !any {
        return String::new();
    }
    let mut out = String::from_str("### Extensions\n\n");
    let t = table.finish();
    out.append(t.as_str());
    out
}

} // verus!
