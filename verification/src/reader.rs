use vstd::prelude::*;
use std::collections::HashMap;
use std::io::Read;
use crate::cell::{
    assign_cols, resolve_spec, resolve_cell, reconcile, text_map_view, CellRec, RawCell, view_cell,
};
use crate::text::str_chars;
use crate::xml::{sheet_cells, sheet_cells_x, sst_texts, sst_texts_x, view_cells, view_rows, view_texts};

verus! {

broadcast use vstd::std_specs::hash::group_hash_axioms;

/// The text of the shared-strings member and of the first worksheet member of
/// the archive in `data`, in that order, with empty text for an absent
/// member; nothing when the archive cannot be opened or a member not read.
pub uninterp spec fn zip_parts(data: Seq<u8>) -> Option<(Seq<char>, Seq<char>)>;

/// Relies on zip::ZipArchive::new and zip::ZipArchive::by_name to open the
/// in-memory archive and find its members, and on std::io::Read::read_to_string
/// to take each member's UTF-8 text; which members an archive holds is a
/// function of its bytes alone.
#[verifier::external_body]
pub fn parse_xlsx_file_to_parts(data: &Vec<u8>) -> (r: Result<(String, String), String>)
    ensures
        match r {
            Ok(p) => zip_parts(data@) == Some((p.0@, p.1@)),
            Err(_) => zip_parts(data@) is None,
        },
{
    let mut zip = match zip::ZipArchive::new(std::io::Cursor::new(data)) {
        Ok(z) => z,
        Err(err) => return Err(format!("{:?}", err)),
    };
    let mut strings = String::new();
    let mut sheet = String::new();
    if let Ok(mut f) = zip.by_name("xl/sharedStrings.xml") {
        if f.read_to_string(&mut strings).is_err() { return Err("Can't read strings file".to_owned()) }
    }
    if let Ok(mut f) = zip.by_name("xl/worksheets/sheet1.xml") {
        if f.read_to_string(&mut sheet).is_err() { return Err("Can't read sheet file".to_owned()) }
    }
    Ok((strings, sheet))
}

/// The string table as a map: index `k` holds the `k`-th text.
pub open spec fn texts_map(ts: Seq<Seq<char>>) -> Map<usize, Seq<char>> {
    Map::new(|k: usize| (k as int) < ts.len(), |k: usize| ts[k as int])
}

/// Build the shared-string table from the shared-strings member text: the
/// `k`-th string item gets index `k`. Empty member text gives an empty table;
/// a malformed table gives nothing.
pub fn get_strings_map(strings: String) -> (r: Option<HashMap<usize, String>>)
    ensures
        match r {
            Some(m) => sst_texts(strings@) matches Some(ts) && text_map_view(m@) == texts_map(ts),
            None => sst_texts(strings@) is None,
        },
{
    let chars = str_chars(strings.as_str());
    match sst_texts_x(&chars) {
        None => None,
        Some(ts) => {
            let mut m: HashMap<usize, String> = HashMap::new();
            let mut i: usize = 0;
            while i < ts.len()
                invariant
                    0 <= i <= ts@.len(),
                    forall|k: usize| m@.contains_key(k) <==> (k as int) < i,
                    forall|k: usize|
                        (k as int) < i ==> m@.contains_key(k) && #[trigger] m@[k]@ == view_texts(
                            ts@,
                        )[k as int],
                decreases ts@.len() - i,
            {
                let t = ts[i].clone();
                m.insert(i, t);
                i += 1;
            }
            proof {
                assert(text_map_view(m@) =~= texts_map(view_texts(ts@)));
            }
            Some(m)
        },
    }
}

/// All rows are narrow enough for column reconciliation on this machine.
pub open spec fn rows_fit(rows: Seq<Seq<CellRec>>) -> bool {
    forall|r: int| 0 <= r < rows.len() ==> (#[trigger] rows[r]).len() < usize::MAX / 2
}

/// The sparse map one row contributes: each resolved cell's text at its
/// column, inserted in document order (a later duplicate column wins).
pub open spec fn row_map(
    cells: Seq<CellRec>,
    cols: Seq<int>,
    smap: Map<usize, Seq<char>>,
    dcols: Seq<usize>,
) -> Map<usize, Seq<char>>
    decreases cells.len(),
{
    if cells.len() == 0 {
        Map::empty()
    } else {
        let prev = row_map(cells.drop_last(), cols.drop_last(), smap, dcols);
        let col = cols[cells.len() - 1];
        match resolve_spec(cells.last(), col as usize, smap, dcols) {
            Some(text) => prev.insert(col as usize, text),
            None => prev,
        }
    }
}

/// Some cell of the row resolves to a value.
pub open spec fn any_resolved(
    cells: Seq<CellRec>,
    cols: Seq<int>,
    smap: Map<usize, Seq<char>>,
    dcols: Seq<usize>,
) -> bool {
    exists|k: int|
        0 <= k < cells.len() && resolve_spec(
            cells[k],
            (#[trigger] cols[k]) as usize,
            smap,
            dcols,
        ) is Some
}

/// The whole table: row `r` of the document (0-based) contributes its row
/// map under index `r`, unless no cell of it resolved.
pub open spec fn table_spec(
    rows: Seq<Seq<CellRec>>,
    smap: Map<usize, Seq<char>>,
    dcols: Seq<usize>,
) -> Map<usize, Map<usize, Seq<char>>>
    decreases rows.len(),
{
    if rows.len() == 0 {
        Map::empty()
    } else {
        let prev = table_spec(rows.drop_last(), smap, dcols);
        let ir = rows.len() - 1;
        let cells = rows.last();
        let cols = assign_cols(cells, ir + 1, 0, cells.len() as int);
        if any_resolved(cells, cols, smap, dcols) {
            prev.insert(ir as usize, row_map(cells, cols, smap, dcols))
        } else {
            prev
        }
    }
}

/// The view of the built table: every text as its character sequence.
pub open spec fn table_view(t: Map<usize, HashMap<usize, String>>) -> Map<
    usize,
    Map<usize, Seq<char>>,
> {
    Map::new(|k: usize| t.contains_key(k), |k: usize| text_map_view(t[k]@))
}

/// The forced date columns the caller supplied, or none.
pub open spec fn dcols_of(date_columns: Option<Vec<usize>>) -> Seq<usize> {
    match date_columns {
        Some(d) => d@,
        None => Seq::empty(),
    }
}

/// Assemble the table from the worksheet member text: each row's cells are
/// reconciled to columns and resolved against the string table; rows with no
/// resolved cell are left out. A malformed worksheet is an error.
pub fn get_parsed_xlsx(
    strings_map: HashMap<usize, String>,
    sheet_content: String,
    date_columns: Option<Vec<usize>>,
) -> (r: Result<HashMap<usize, HashMap<usize, String>>, String>)
    ensures
        match r {
            Ok(t) => sheet_cells(sheet_content@) matches Some(rows) && rows_fit(rows) && table_view(
                t@,
            ) == table_spec(rows, text_map_view(strings_map@), dcols_of(date_columns)),
            Err(_) => sheet_cells(sheet_content@) is None || (sheet_cells(
                sheet_content@,
            ) matches Some(rows) && !rows_fit(rows)),
        },
{
    let chars = str_chars(sheet_content.as_str());
    let rows: Vec<Vec<RawCell>> = match sheet_cells_x(&chars) {
        None => {
            return Err("XML parsing error".to_owned());
        },
        Some(rs) => rs,
    };
    let ghost vrows: Seq<Seq<CellRec>> = view_rows(rows@);
    let ghost smap: Map<usize, Seq<char>> = text_map_view(strings_map@);
    let dcols: Vec<usize> = match date_columns {
        Some(d) => d,
        None => Vec::new(),
    };
    proof {
        assert(dcols@ == dcols_of(date_columns));
    }
    let mut table: HashMap<usize, HashMap<usize, String>> = HashMap::new();
    let mut ir: usize = 0;
    proof {
        assert(vrows.subrange(0, 0) =~= Seq::<Seq<CellRec>>::empty());
        assert(table_view(table@) =~~= table_spec(vrows.subrange(0, 0), smap, dcols@));
    }
    while ir < rows.len()
        invariant
            0 <= ir <= rows@.len(),
            vrows == view_rows(rows@),
            sheet_cells(sheet_content@) == Some(vrows),
            smap == text_map_view(strings_map@),
            dcols@ == dcols_of(date_columns),
            rows_fit(vrows.subrange(0, ir as int)),
            table_view(table@) == table_spec(vrows.subrange(0, ir as int), smap, dcols@),
        decreases rows@.len() - ir,
    {
        let cells: &Vec<RawCell> = &rows[ir];
        let ghost vcells: Seq<CellRec> = view_cells(cells@);
        proof {
            assert(vrows[ir as int] == vcells);
        }
        if cells.len() >= usize::MAX / 2 {
            proof {
                assert(vcells.len() >= usize::MAX / 2);
                assert(!rows_fit(vrows));
            }
            return Err("XML parsing error".to_owned());
        }
        let cols: Vec<usize> = reconcile(cells, ir + 1);
        let ghost gcols: Seq<int> = assign_cols(vcells, ir + 1, 0, vcells.len() as int);
        proof {
            assert(cols@.map_values(|x: usize| x as int) == gcols);
            assert(cols@.map_values(|x: usize| x as int).len() == cols@.len());
            assert(cols@.len() == gcols.len() && vcells.len() == gcols.len());
        }
        let mut tr: HashMap<usize, String> = HashMap::new();
        let mut found = false;
        let mut k: usize = 0;
        proof {
            assert(vcells.subrange(0, 0) =~= Seq::<CellRec>::empty());
            assert(gcols.subrange(0, 0) =~= Seq::<int>::empty());
            assert(text_map_view(tr@) =~= row_map(
                vcells.subrange(0, 0),
                gcols.subrange(0, 0),
                smap,
                dcols@,
            ));
        }
        while k < cells.len()
            invariant
                0 <= k <= vcells.len(),
                vcells == view_cells(cells@),
                cells@.len() == vcells.len(),
                cols@.len() == vcells.len(),
                gcols.len() == vcells.len(),
                smap == text_map_view(strings_map@),
                cols@.map_values(|x: usize| x as int) == gcols,
                text_map_view(tr@) == row_map(
                    vcells.subrange(0, k as int),
                    gcols.subrange(0, k as int),
                    smap,
                    dcols@,
                ),
                found == any_resolved(
                    vcells.subrange(0, k as int),
                    gcols.subrange(0, k as int),
                    smap,
                    dcols@,
                ),
            decreases vcells.len() - k,
        {
            proof {
                assert(vcells[k as int] == view_cell(cells@[k as int]));
                assert(gcols[k as int] == cols@.map_values(|x: usize| x as int)[k as int]);
                let pc = vcells.subrange(0, k + 1);
                let po = gcols.subrange(0, k + 1);
                assert(pc.drop_last() =~= vcells.subrange(0, k as int));
                assert(po.drop_last() =~= gcols.subrange(0, k as int));
                assert(pc.last() == vcells[k as int] && po.last() == gcols[k as int]);
            }
            match resolve_cell(&cells[k], cols[k], &strings_map, &dcols) {
                Some(text) => {
                    let ghost old_tr = tr@;
                    tr.insert(cols[k], text);
                    proof {
                        assert(text_map_view(tr@) =~= text_map_view(old_tr).insert(
                            cols@[k as int],
                            tr@[cols@[k as int]]@,
                        ));
                        assert(any_resolved(
                            vcells.subrange(0, k + 1),
                            gcols.subrange(0, k + 1),
                            smap,
                            dcols@,
                        ));
                    }
                    found = true;
                },
                None => {
                    proof {
                        if any_resolved(
                            vcells.subrange(0, k + 1),
                            gcols.subrange(0, k + 1),
                            smap,
                            dcols@,
                        ) {
                            let w = choose|w: int|
                                0 <= w < k + 1 && resolve_spec(
                                    vcells.subrange(0, k + 1)[w],
                                    (#[trigger] gcols.subrange(0, k + 1)[w]) as usize,
                                    smap,
                                    dcols@,
                                ) is Some;
                            if w < k {
                                assert(resolve_spec(
                                    vcells.subrange(0, k as int)[w],
                                    (gcols.subrange(0, k as int)[w]) as usize,
                                    smap,
                                    dcols@,
                                ) is Some);
                            }
                        }
                    }
                },
            }
            k += 1;
        }
        proof {
            assert(vcells.subrange(0, vcells.len() as int) =~= vcells);
            assert(gcols.subrange(0, gcols.len() as int) =~= gcols);
            let pr = vrows.subrange(0, ir + 1);
            assert(pr.drop_last() =~= vrows.subrange(0, ir as int));
            assert(pr.last() == vcells);
        }
        if found {
            let ghost old_table = table@;
            table.insert(ir, tr);
            proof {
                assert(text_map_view(table@[ir]@) == text_map_view(tr@));
                assert(table_view(table@) =~~= table_view(old_table).insert(
                    ir,
                    text_map_view(tr@),
                ));
            }
        }
        proof {
            assert(rows_fit(vrows.subrange(0, ir + 1)));
        }
        ir += 1;
    }
    proof {
        assert(vrows.subrange(0, rows@.len() as int) =~= vrows);
    }
    Ok(table)
}

/// Parse a spreadsheet document held in `data` into its sparse table: row
/// index to column index to final text. `date_columns` names columns that are
/// always decoded as dates. The archive, the string table and the worksheet
/// must each decode; otherwise the error says which stage failed.
pub fn parse_xlsx(data: &Vec<u8>, date_columns: Option<Vec<usize>>) -> (r: Result<
    HashMap<usize, HashMap<usize, String>>,
    String,
>)
    ensures
        match r {
            Ok(t) => zip_parts(data@) matches Some(parts) && sst_texts(parts.0) matches Some(ts)
                && sheet_cells(parts.1) matches Some(rows) && rows_fit(rows) && table_view(t@)
                == table_spec(rows, texts_map(ts), dcols_of(date_columns)),
            Err(_) => zip_parts(data@) is None || (zip_parts(data@) matches Some(parts) && (
            sst_texts(parts.0) is None || sheet_cells(parts.1) is None || (sheet_cells(
                parts.1,
            ) matches Some(rows) && !rows_fit(rows)))),
        },
{
    let parts = match parse_xlsx_file_to_parts(data) {
        Ok(p) => p,
        Err(err) => {
            return Err(err);
        },
    };
    let (strings, sheet) = parts;
    let map = match get_strings_map(strings) {
        Some(m) => m,
        None => {
            return Err("Data extracting error".to_owned());
        },
    };
    get_parsed_xlsx(map, sheet, date_columns)
}

} // verus!
