use vstd::prelude::*;
use std::collections::HashMap;
use crate::col::{cell_addr, excel_str_cell};
use crate::date::{excel_date, excel_date_spec};
use crate::text::{parse_usize, str_chars, usize_parse};

verus! {

broadcast use vstd::std_specs::hash::group_hash_axioms;

/// One cell as decoded from a worksheet row: an optional declared address
/// such as `C3`, an optional style id, an optional type tag, an optional raw
/// value text, and optional inline text that takes precedence over the value.
pub struct RawCell {
    pub address: Option<String>,
    pub style: Option<String>,
    pub type_tag: Option<String>,
    pub value: Option<String>,
    pub inline: Option<String>,
}

/// The mathematical view of a `RawCell`: the same five fields as character
/// sequences.
pub struct CellRec {
    pub address: Option<Seq<char>>,
    pub style: Option<Seq<char>>,
    pub type_tag: Option<Seq<char>>,
    pub value: Option<Seq<char>>,
    pub inline: Option<Seq<char>>,
}

pub open spec fn view_cell(c: RawCell) -> CellRec {
    CellRec {
        address: match c.address {
            Some(a) => Some(a@),
            None => None,
        },
        style: match c.style {
            Some(a) => Some(a@),
            None => None,
        },
        type_tag: match c.type_tag {
            Some(a) => Some(a@),
            None => None,
        },
        value: match c.value {
            Some(a) => Some(a@),
            None => None,
        },
        inline: match c.inline {
            Some(a) => Some(a@),
            None => None,
        },
    }
}

/// The least candidate column in `[i, count]` whose generated address equals
/// the declared one, if any.
pub open spec fn addr_search(row: int, addr: Seq<char>, i: int, count: int) -> Option<int>
    decreases count + 1 - i,
{
    if i > count || i < 0 {
        None
    } else if cell_addr(row as nat, i as nat) == addr {
        Some(i)
    } else {
        addr_search(row, addr, i + 1, count)
    }
}

/// The column assigned to one cell: a declared address is searched forward
/// from the cursor; no address, or a failed search, keeps the cursor's value.
pub open spec fn cell_col(address: Option<Seq<char>>, row: int, cur: int, count: int) -> int {
    match address {
        None => cur,
        Some(a) => match addr_search(row, a, cur, count) {
            Some(found) => found,
            None => cur,
        },
    }
}

/// Columns assigned to a row's cells in order: each cell takes `cell_col` at
/// the running cursor, and the cursor moves one past the assigned column.
pub open spec fn assign_cols(cells: Seq<CellRec>, row: int, cur: int, count: int) -> Seq<int>
    decreases cells.len(),
{
    if cells.len() == 0 {
        Seq::empty()
    } else {
        let c = cell_col(cells[0].address, row, cur, count);
        seq![c] + assign_cols(cells.drop_first(), row, c + 1, count)
    }
}

proof fn lemma_addr_search_ge(row: int, addr: Seq<char>, i: int, count: int)
    ensures
        addr_search(row, addr, i, count) matches Some(f) ==> f >= i,
    decreases count + 1 - i,
{
    if !(i > count || i < 0) && cell_addr(row as nat, i as nat) != addr {
        lemma_addr_search_ge(row, addr, i + 1, count);
    }
}

proof fn lemma_assign_cols_ge(cells: Seq<CellRec>, row: int, cur: int, count: int)
    ensures
        assign_cols(cells, row, cur, count).len() == cells.len(),
        forall|k: int|
            0 <= k < cells.len() ==> #[trigger] assign_cols(cells, row, cur, count)[k] >= cur,
    decreases cells.len(),
{
    if cells.len() > 0 {
        let c = cell_col(cells[0].address, row, cur, count);
        match cells[0].address {
            None => {},
            Some(a) => {
                lemma_addr_search_ge(row, a, cur, count);
            },
        }
        assert(c >= cur);
        lemma_assign_cols_ge(cells.drop_first(), row, c + 1, count);
    }
}

/// Within one row, a later cell never takes a column at or before an earlier
/// cell's: the assigned column indices strictly increase in document order.
pub proof fn lemma_assign_cols_strictly_increasing(
    cells: Seq<CellRec>,
    row: int,
    cur: int,
    count: int,
)
    ensures
        forall|k1: int, k2: int|
            0 <= k1 < k2 < cells.len() ==> #[trigger] assign_cols(cells, row, cur, count)[k1]
                < #[trigger] assign_cols(cells, row, cur, count)[k2],
    decreases cells.len(),
{
    if cells.len() > 0 {
        let c = cell_col(cells[0].address, row, cur, count);
        let rest = assign_cols(cells.drop_first(), row, c + 1, count);
        lemma_assign_cols_ge(cells.drop_first(), row, c + 1, count);
        lemma_assign_cols_strictly_increasing(cells.drop_first(), row, c + 1, count);
        let whole = assign_cols(cells, row, cur, count);
        assert(forall|k: int| 1 <= k < whole.len() ==> #[trigger] whole[k] == rest[k - 1]);
        assert(forall|k1: int, k2: int|
            0 <= k1 < k2 < cells.len() ==> #[trigger] whole[k1] < #[trigger] whole[k2]) by {
            assert(forall|k2: int| 1 <= k2 < whole.len() ==> #[trigger] whole[k2] >= c + 1);
        }
    }
}

/// Resolve each cell of a row (with 1-based row number `row`) to its
/// zero-based column index, reconstructing columns skipped by the document.
pub fn reconcile(cells: &Vec<RawCell>, row: usize) -> (r: Vec<usize>)
    requires
        cells.len() < usize::MAX / 2,
    ensures
        r@.len() == cells@.len(),
        r@.map_values(|x: usize| x as int) == assign_cols(
            cells@.map_values(|c: RawCell| view_cell(c)),
            row as int,
            0,
            cells@.len() as int,
        ),
{
    let ghost vcells: Seq<CellRec> = cells@.map_values(|c: RawCell| view_cell(c));
    let count: usize = cells.len();
    let mut out: Vec<usize> = Vec::new();
    let mut cur: usize = 0;
    let mut k: usize = 0;
    proof {
        assert(vcells.subrange(0, count as int) =~= vcells);
        assert(out@.map_values(|x: usize| x as int) =~= Seq::<int>::empty());
        assert(Seq::<int>::empty() + assign_cols(vcells, row as int, 0, count as int)
            =~= assign_cols(vcells, row as int, 0, count as int));
    }
    while k < count
        invariant
            0 <= k <= count,
            count == cells@.len() < usize::MAX / 2,
            vcells == cells@.map_values(|c: RawCell| view_cell(c)),
            cur <= count + k,
            out@.len() == k,
            out@.map_values(|x: usize| x as int) + assign_cols(
                vcells.subrange(k as int, count as int),
                row as int,
                cur as int,
                count as int,
            ) == assign_cols(vcells, row as int, 0, count as int),
        decreases count - k,
    {
        let col: usize = match &cells[k].address {
            None => cur,
            Some(a) => {
                proof {
                    assert(vcells[k as int] == view_cell(cells@[k as int]));
                }
                let mut i: usize = cur;
                let mut res: Option<usize> = None;
                while i <= count && res.is_none()
                    invariant
                        cur <= i,
                        i <= count + 1 || i == cur,
                        count < usize::MAX / 2,
                        cur <= count + k <= 2 * count,
                        cells@.len() == count,
                        vcells == cells@.map_values(|c: RawCell| view_cell(c)),
                        k < count,
                        vcells[k as int].address == Some(a@),
                        match res {
                            Some(x) => x == i && i <= count && addr_search(
                                row as int,
                                a@,
                                cur as int,
                                count as int,
                            ) == Some(i as int),
                            None => addr_search(row as int, a@, cur as int, count as int)
                                == addr_search(row as int, a@, i as int, count as int),
                        },
                    decreases count + 1 - i + (if res is Some {
                        0int
                    } else {
                        1int
                    }),
                {
                    let g = excel_str_cell(row, i);
                    if g == *a {
                        res = Some(i);
                    } else {
                        i += 1;
                    }
                }
                match res {
                    Some(found) => found,
                    None => cur,
                }
            },
        };
        proof {
            assert(vcells[k as int] == view_cell(cells@[k as int]));
            assert(col as int == cell_col(vcells[k as int].address, row as int, cur as int, count as int));
            assert(vcells.subrange(k as int, count as int).drop_first() =~= vcells.subrange(
                k + 1,
                count as int,
            ));
            assert(vcells.subrange(k as int, count as int)[0] == vcells[k as int]);
        }
        out.push(col);
        proof {
            assert(out@.map_values(|x: usize| x as int) =~= out@.drop_last().map_values(
                |x: usize| x as int,
            ) + seq![col as int]);
            assert(out@.drop_last() =~= out@.subrange(0, out@.len() - 1));
            assert(out@.map_values(|x: usize| x as int) + assign_cols(
                vcells.subrange(k + 1, count as int),
                row as int,
                col as int + 1,
                count as int,
            ) =~= assign_cols(vcells, row as int, 0, count as int));
        }
        cur = col + 1;
        k += 1;
    }
    proof {
        assert(vcells.subrange(count as int, count as int) =~= Seq::<CellRec>::empty());
        assert(out@.map_values(|x: usize| x as int) + assign_cols(
            Seq::<CellRec>::empty(),
            row as int,
            cur as int,
            count as int,
        ) =~= out@.map_values(|x: usize| x as int));
    }
    out
}

/// A style id that marks a date whose serial carries a time-of-day offset.
pub open spec fn is_style_offset_date(style: Option<Seq<char>>) -> bool {
    match style {
        Some(st) => st == seq!['1', '0'] || st == seq!['1', '4'] || st == seq!['1', '5'],
        None => false,
    }
}

/// A style id that marks a plain date serial.
pub open spec fn is_style_plain_date(style: Option<Seq<char>>) -> bool {
    match style {
        Some(st) => st == seq!['3'] || st == seq!['4'] || st == seq!['5'],
        None => false,
    }
}

/// A type tag naming a shared-string reference.
pub open spec fn is_shared_type(tag: Option<Seq<char>>) -> bool {
    match tag {
        Some(t) => t == seq!['s'],
        None => false,
    }
}

fn style_offset_date(style: &Option<String>) -> (b: bool)
    ensures
        b == is_style_offset_date(match *style {
            Some(st) => Some(st@),
            None => None,
        }),
{
    match style {
        None => false,
        Some(st) => {
            if st.as_str().unicode_len() == 2 && st.as_str().get_char(0) == '1' {
                let c = st.as_str().get_char(1);
                let r = c == '0' || c == '4' || c == '5';
                proof {
                    if r {
                        assert(st@ =~= seq!['1', c]);
                    }
                }
                r
            } else {
                false
            }
        },
    }
}

fn style_plain_date(style: &Option<String>) -> (b: bool)
    ensures
        b == is_style_plain_date(match *style {
            Some(st) => Some(st@),
            None => None,
        }),
{
    match style {
        None => false,
        Some(st) => {
            if st.as_str().unicode_len() == 1 {
                let c = st.as_str().get_char(0);
                let r = c == '3' || c == '4' || c == '5';
                proof {
                    if r {
                        assert(st@ =~= seq![c]);
                    }
                }
                r
            } else {
                false
            }
        },
    }
}

fn shared_type(tag: &Option<String>) -> (b: bool)
    ensures
        b == is_shared_type(match *tag {
            Some(t) => Some(t@),
            None => None,
        }),
{
    match tag {
        None => false,
        Some(t) => {
            if t.as_str().unicode_len() == 1 {
                let r = t.as_str().get_char(0) == 's';
                proof {
                    if r {
                        assert(t@ =~= seq!['s']);
                    }
                }
                r
            } else {
                false
            }
        },
    }
}

fn contains_col(v: &Vec<usize>, x: usize) -> (b: bool)
    ensures
        b == v@.contains(x),
{
    let mut k: usize = 0;
    while k < v.len()
        invariant
            0 <= k <= v@.len(),
            forall|t: int| 0 <= t < k ==> v@[t] != x,
        decreases v@.len() - k,
    {
        if v[k] == x {
            proof {
                assert(v@[k as int] == x);
            }
            return true;
        }
        k += 1;
    }
    false
}

/// The final text of one cell, or nothing. Inline text is kept verbatim; a
/// cell without value text contributes nothing; a column in the forced date
/// set is decoded as a date, with the time-of-day offset when the style asks
/// for it; a shared-string reference is looked up, keeping the raw text when
/// the index does not parse or is absent from the table; date styles decode
/// as dates; anything else keeps the raw value text.
/// The view of a string-keyed table: each text as its character sequence.
pub open spec fn text_map_view(m: Map<usize, String>) -> Map<usize, Seq<char>> {
    Map::new(|k: usize| m.contains_key(k), |k: usize| m[k]@)
}

pub open spec fn resolve_spec(
    cell: CellRec,
    col: usize,
    smap: Map<usize, Seq<char>>,
    dcols: Seq<usize>,
) -> Option<Seq<char>> {
    match cell.inline {
        Some(t) => Some(t),
        None => match cell.value {
            None => None,
            Some(val) => {
                if dcols.contains(col) {
                    if is_style_offset_date(cell.style) {
                        Some(excel_date_spec(val, Some(1462)))
                    } else {
                        Some(excel_date_spec(val, None))
                    }
                } else if is_shared_type(cell.type_tag) {
                    match usize_parse(val) {
                        Some(idx) => {
                            if smap.contains_key(idx as usize) {
                                Some(smap[idx as usize])
                            } else {
                                Some(val)
                            }
                        },
                        None => Some(val),
                    }
                } else if is_style_offset_date(cell.style) {
                    Some(excel_date_spec(val, Some(1462)))
                } else if is_style_plain_date(cell.style) {
                    Some(excel_date_spec(val, None))
                } else {
                    Some(val)
                }
            },
        },
    }
}

/// Resolve one cell's final text from its type tag, style, raw text, resolved
/// column, the shared-string table, and the forced date columns.
pub fn resolve_cell(
    cell: &RawCell,
    col: usize,
    strings: &HashMap<usize, String>,
    dcols: &Vec<usize>,
) -> (r: Option<String>)
    ensures
        match r {
            Some(s) => resolve_spec(view_cell(*cell), col, text_map_view(strings@), dcols@)
                == Some(s@),
            None => resolve_spec(view_cell(*cell), col, text_map_view(strings@), dcols@) is None,
        },
{
    if let Some(t) = &cell.inline {
        return Some(t.clone());
    }
    match &cell.value {
        None => None,
        Some(val) => {
            if contains_col(dcols, col) {
                if style_offset_date(&cell.style) {
                    Some(excel_date(val.as_str(), Some(1462)))
                } else {
                    Some(excel_date(val.as_str(), None))
                }
            } else if shared_type(&cell.type_tag) {
                let chars = str_chars(val.as_str());
                match parse_usize(&chars) {
                    Some(idx) => match strings.get(&idx) {
                        Some(s) => {
                            proof {
                                assert(text_map_view(strings@).contains_key(idx));
                                assert(text_map_view(strings@)[idx] == strings@[idx]@);
                            }
                            Some(s.clone())
                        },
                        None => {
                            proof {
                                assert(!text_map_view(strings@).contains_key(idx));
                            }
                            Some(val.clone())
                        },
                    },
                    None => Some(val.clone()),
                }
            } else if style_offset_date(&cell.style) {
                Some(excel_date(val.as_str(), Some(1462)))
            } else if style_plain_date(&cell.style) {
                Some(excel_date(val.as_str(), None))
            } else {
                Some(val.clone())
            }
        },
    }
}

} // verus!
