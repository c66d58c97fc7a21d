use vstd::prelude::*;
use crate::text::push_char;
use crate::cell::{CellRec, RawCell, view_cell};

verus! {

/// The characters of `pat` occur in `s` starting at position `i`.
pub open spec fn match_at(s: Seq<char>, pat: Seq<char>, i: int) -> bool {
    0 <= i && i + pat.len() <= s.len() && s.subrange(i, i + pat.len()) == pat
}

/// A character that may follow an element name inside its tag.
pub open spec fn is_tag_delim(c: char) -> bool {
    c == ' ' || c == '\t' || c == '\n' || c == '\r' || c == '>' || c == '/'
}

/// An opening tag for the element `name` starts at position `i`.
pub open spec fn open_at(s: Seq<char>, name: Seq<char>, i: int) -> bool {
    &&& 0 <= i
    &&& i + 1 + name.len() < s.len()
    &&& s[i] == '<'
    &&& match_at(s, name, i + 1)
    &&& is_tag_delim(s[i + 1 + name.len()])
}

/// Position of the first opening tag for `name` at or after `from`.
pub open spec fn find_open(s: Seq<char>, name: Seq<char>, from: int) -> Option<int>
    decreases s.len() - from,
{
    if from < 0 || from >= s.len() {
        None
    } else if open_at(s, name, from) {
        Some(from)
    } else {
        find_open(s, name, from + 1)
    }
}

/// Position of the first occurrence of `pat` at or after `from`.
pub open spec fn find_pat(s: Seq<char>, pat: Seq<char>, from: int) -> Option<int>
    decreases s.len() - from,
{
    if pat.len() == 0 || from < 0 || from + pat.len() > s.len() {
        None
    } else if match_at(s, pat, from) {
        Some(from)
    } else {
        find_pat(s, pat, from + 1)
    }
}

/// Scanning from `i` with `q` as the currently open quote, the position one
/// past the `>` that ends the tag, and whether a `/` stands right before it.
pub open spec fn tag_end(s: Seq<char>, i: int, q: Option<char>) -> Option<(int, bool)>
    decreases s.len() - i,
{
    if i < 0 || i >= s.len() {
        None
    } else {
        let c = s[i];
        match q {
            Some(qc) => {
                if c == qc {
                    tag_end(s, i + 1, None)
                } else {
                    tag_end(s, i + 1, q)
                }
            },
            None => {
                if c == '>' {
                    Some((i + 1, i > 0 && s[i - 1] == '/'))
                } else if c == '"' || c == '\'' {
                    tag_end(s, i + 1, Some(c))
                } else {
                    tag_end(s, i + 1, None)
                }
            },
        }
    }
}

pub proof fn lemma_find_open_range(s: Seq<char>, name: Seq<char>, from: int)
    ensures
        find_open(s, name, from) matches Some(i) ==> from <= i && i < s.len(),
    decreases s.len() - from,
{
    if !(from < 0 || from >= s.len()) && !open_at(s, name, from) {
        lemma_find_open_range(s, name, from + 1);
    }
}

pub proof fn lemma_find_pat_range(s: Seq<char>, pat: Seq<char>, from: int)
    ensures
        find_pat(s, pat, from) matches Some(p) ==> from <= p && 0 <= p && p + pat.len() <= s.len(),
    decreases s.len() - from,
{
    if !(pat.len() == 0 || from < 0 || from + pat.len() > s.len()) && !match_at(s, pat, from) {
        lemma_find_pat_range(s, pat, from + 1);
    }
}

pub proof fn lemma_tag_end_range(s: Seq<char>, i: int, q: Option<char>)
    ensures
        tag_end(s, i, q) matches Some(p) ==> i < p.0 <= s.len(),
    decreases s.len() - i,
{
    if !(i < 0 || i >= s.len()) {
        let c = s[i];
        match q {
            Some(qc) => {
                if c == qc {
                    lemma_tag_end_range(s, i + 1, None);
                } else {
                    lemma_tag_end_range(s, i + 1, q);
                }
            },
            None => {
                if c == '>' {
                } else if c == '"' || c == '\'' {
                    lemma_tag_end_range(s, i + 1, Some(c));
                } else {
                    lemma_tag_end_range(s, i + 1, None);
                }
            },
        }
    }
}

fn match_at_x(v: &Vec<char>, pat: &Vec<char>, i: usize) -> (b: bool)
    ensures
        b == match_at(v@, pat@, i as int),
{
    if i > v.len() || v.len() - i < pat.len() {
        return false;
    }
    let mut k: usize = 0;
    while k < pat.len()
        invariant
            0 <= k <= pat@.len(),
            i + pat@.len() <= v@.len(),
            v@.len() <= usize::MAX,
            forall|t: int| 0 <= t < k ==> v@[i + t] == pat@[t],
        decreases pat@.len() - k,
    {
        if v[i + k] != pat[k] {
            proof {
                assert(v@.subrange(i as int, i + pat@.len())[k as int] == v@[i + k]);
            }
            return false;
        }
        k += 1;
    }
    proof {
        assert(v@.subrange(i as int, i + pat@.len()) =~= pat@);
    }
    true
}

fn is_tag_delim_x(c: char) -> (b: bool)
    ensures
        b == is_tag_delim(c),
{
    c == ' ' || c == '\t' || c == '\n' || c == '\r' || c == '>' || c == '/'
}

fn open_at_x(v: &Vec<char>, name: &Vec<char>, i: usize) -> (b: bool)
    ensures
        b == open_at(v@, name@, i as int),
{
    if i >= v.len() || v[i] != '<' {
        return false;
    }
    if !match_at_x(v, name, i + 1) {
        return false;
    }
    let e: usize = i + 1 + name.len();
    if e >= v.len() {
        return false;
    }
    is_tag_delim_x(v[e])
}

fn find_open_x(v: &Vec<char>, name: &Vec<char>, from: usize) -> (r: Option<usize>)
    ensures
        match r {
            Some(i) => find_open(v@, name@, from as int) == Some(i as int) && from <= i && i
                < v@.len(),
            None => find_open(v@, name@, from as int) is None,
        },
{
    let mut i: usize = from;
    while i < v.len()
        invariant
            from <= i,
            find_open(v@, name@, from as int) == find_open(v@, name@, i as int),
        decreases v@.len() - i,
    {
        if open_at_x(v, name, i) {
            return Some(i);
        }
        i += 1;
    }
    None
}

fn find_pat_x(v: &Vec<char>, pat: &Vec<char>, from: usize) -> (r: Option<usize>)
    ensures
        match r {
            Some(p) => find_pat(v@, pat@, from as int) == Some(p as int) && from <= p && p
                + pat@.len() <= v@.len(),
            None => find_pat(v@, pat@, from as int) is None,
        },
{
    if pat.len() == 0 || pat.len() > v.len() {
        return None;
    }
    let limit: usize = v.len() - pat.len();
    let mut i: usize = from;
    while i <= limit
        invariant
            from <= i,
            pat@.len() >= 1,
            limit < usize::MAX,
            pat@.len() + limit == v@.len(),
            find_pat(v@, pat@, from as int) == find_pat(v@, pat@, i as int),
        decreases limit + 1 - i,
    {
        if match_at_x(v, pat, i) {
            return Some(i);
        }
        i += 1;
    }
    None
}

fn tag_end_x(v: &Vec<char>, start: usize) -> (r: Option<(usize, bool)>)
    ensures
        match r {
            Some(p) => tag_end(v@, start as int, None) == Some((p.0 as int, p.1)) && start < p.0
                <= v@.len(),
            None => tag_end(v@, start as int, None) is None,
        },
{
    let mut i: usize = start;
    let mut q: Option<char> = None;
    while i < v.len()
        invariant
            start <= i,
            tag_end(v@, start as int, None) == tag_end(v@, i as int, q),
        decreases v@.len() - i,
    {
        let c = v[i];
        match q {
            Some(qc) => {
                if c == qc {
                    q = None;
                } else {
                }
            },
            None => {
                if c == '>' {
                    let sc = i > 0 && v[i - 1] == '/';
                    return Some((i + 1, sc));
                } else if c == '"' || c == '\'' {
                    q = Some(c);
                } else {
                }
            },
        }
        i += 1;
    }
    None
}

/// The characters of `v` between `a` and `b`, as a fresh string.
fn copy_string(v: &Vec<char>, a: usize, b: usize) -> (r: String)
    requires
        a <= b <= v@.len(),
    ensures
        r@ == v@.subrange(a as int, b as int),
{
    let mut out = String::new();
    let mut k: usize = a;
    while k < b
        invariant
            a <= k <= b <= v@.len(),
            out@ == v@.subrange(a as int, k as int),
        decreases b - k,
    {
        push_char(&mut out, v[k]);
        proof {
            assert(v@.subrange(a as int, k as int) + seq![v@[k as int]] =~= v@.subrange(
                a as int,
                k + 1,
            ));
        }
        k += 1;
    }
    proof {
        if a == b {
            assert(out@ =~= v@.subrange(a as int, b as int));
        }
    }
    out
}

/// Text content with the five predefined entities decoded; any other use of
/// `&` is kept as it is.
pub open spec fn ent_decode(s: Seq<char>) -> Seq<char>
    decreases s.len(),
{
    if s.len() == 0 {
        Seq::empty()
    } else if match_at(s, seq!['&', 'a', 'm', 'p', ';'], 0) {
        seq!['&'] + ent_decode(s.skip(5))
    } else if match_at(s, seq!['&', 'l', 't', ';'], 0) {
        seq!['<'] + ent_decode(s.skip(4))
    } else if match_at(s, seq!['&', 'g', 't', ';'], 0) {
        seq!['>'] + ent_decode(s.skip(4))
    } else if match_at(s, seq!['&', 'q', 'u', 'o', 't', ';'], 0) {
        seq!['"'] + ent_decode(s.skip(6))
    } else if match_at(s, seq!['&', 'a', 'p', 'o', 's', ';'], 0) {
        seq!['\''] + ent_decode(s.skip(6))
    } else {
        seq![s[0]] + ent_decode(s.skip(1))
    }
}

/// Decode the entities in `v[lo..hi]` and append the result to `out`.
fn ent_append(v: &Vec<char>, lo: usize, hi: usize, out: &mut String)
    requires
        lo <= hi <= v@.len(),
    ensures
        final(out)@ == old(out)@ + ent_decode(v@.subrange(lo as int, hi as int)),
    decreases hi - lo,
{
    let ghost t: Seq<char> = v@.subrange(lo as int, hi as int);
    if lo >= hi {
        proof {
            assert(old(out)@ + ent_decode(t) =~= old(out)@);
        }
        return ;
    }
    let amp = hi - lo >= 5 && v[lo] == '&' && v[lo + 1] == 'a' && v[lo + 2] == 'm' && v[lo + 3]
        == 'p' && v[lo + 4] == ';';
    let lt = hi - lo >= 4 && v[lo] == '&' && v[lo + 1] == 'l' && v[lo + 2] == 't' && v[lo + 3]
        == ';';
    let gt = hi - lo >= 4 && v[lo] == '&' && v[lo + 1] == 'g' && v[lo + 2] == 't' && v[lo + 3]
        == ';';
    let quo = hi - lo >= 6 && v[lo] == '&' && v[lo + 1] == 'q' && v[lo + 2] == 'u' && v[lo + 3]
        == 'o' && v[lo + 4] == 't' && v[lo + 5] == ';';
    let apo = hi - lo >= 6 && v[lo] == '&' && v[lo + 1] == 'a' && v[lo + 2] == 'p' && v[lo + 3]
        == 'o' && v[lo + 4] == 's' && v[lo + 5] == ';';
    proof {
        assert(forall|k: int| 0 <= k < t.len() ==> t[k] == v@[lo + k]);
        if hi - lo >= 5 {
            assert(t.subrange(0, 5) =~= v@.subrange(lo as int, lo + 5));
            assert(amp <==> match_at(t, seq!['&', 'a', 'm', 'p', ';'], 0)) by {
                if amp {
                    assert(t.subrange(0, 5) =~= seq!['&', 'a', 'm', 'p', ';']);
                }
                if match_at(t, seq!['&', 'a', 'm', 'p', ';'], 0) {
                    assert(t[0] == '&' && t[1] == 'a' && t[2] == 'm' && t[3] == 'p' && t[4] == ';');
                }
            }
        } else {
            assert(!match_at(t, seq!['&', 'a', 'm', 'p', ';'], 0));
        }
        if hi - lo >= 4 {
            assert(t.subrange(0, 4) =~= v@.subrange(lo as int, lo + 4));
            assert(lt <==> match_at(t, seq!['&', 'l', 't', ';'], 0)) by {
                if lt {
                    assert(t.subrange(0, 4) =~= seq!['&', 'l', 't', ';']);
                }
                if match_at(t, seq!['&', 'l', 't', ';'], 0) {
                    assert(t[0] == '&' && t[1] == 'l' && t[2] == 't' && t[3] == ';');
                }
            }
            assert(gt <==> match_at(t, seq!['&', 'g', 't', ';'], 0)) by {
                if gt {
                    assert(t.subrange(0, 4) =~= seq!['&', 'g', 't', ';']);
                }
                if match_at(t, seq!['&', 'g', 't', ';'], 0) {
                    assert(t[0] == '&' && t[1] == 'g' && t[2] == 't' && t[3] == ';');
                }
            }
        } else {
            assert(!match_at(t, seq!['&', 'l', 't', ';'], 0));
            assert(!match_at(t, seq!['&', 'g', 't', ';'], 0));
        }
        if hi - lo >= 6 {
            assert(t.subrange(0, 6) =~= v@.subrange(lo as int, lo + 6));
            assert(quo <==> match_at(t, seq!['&', 'q', 'u', 'o', 't', ';'], 0)) by {
                if quo {
                    assert(t.subrange(0, 6) =~= seq!['&', 'q', 'u', 'o', 't', ';']);
                }
                if match_at(t, seq!['&', 'q', 'u', 'o', 't', ';'], 0) {
                    assert(t[0] == '&' && t[1] == 'q' && t[2] == 'u' && t[3] == 'o' && t[4] == 't'
                        && t[5] == ';');
                }
            }
            assert(apo <==> match_at(t, seq!['&', 'a', 'p', 'o', 's', ';'], 0)) by {
                if apo {
                    assert(t.subrange(0, 6) =~= seq!['&', 'a', 'p', 'o', 's', ';']);
                }
                if match_at(t, seq!['&', 'a', 'p', 'o', 's', ';'], 0) {
                    assert(t[0] == '&' && t[1] == 'a' && t[2] == 'p' && t[3] == 'o' && t[4] == 's'
                        && t[5] == ';');
                }
            }
        } else {
            assert(!match_at(t, seq!['&', 'q', 'u', 'o', 't', ';'], 0));
            assert(!match_at(t, seq!['&', 'a', 'p', 'o', 's', ';'], 0));
        }
    }
    if amp {
        push_char(out, '&');
        ent_append(v, lo + 5, hi, out);
        proof {
            assert(t.skip(5) =~= v@.subrange(lo + 5, hi as int));
            assert(old(out)@ + seq!['&'] + ent_decode(t.skip(5)) =~= old(out)@ + ent_decode(t));
        }
    } else if lt {
        push_char(out, '<');
        ent_append(v, lo + 4, hi, out);
        proof {
            assert(t.skip(4) =~= v@.subrange(lo + 4, hi as int));
            assert(old(out)@ + seq!['<'] + ent_decode(t.skip(4)) =~= old(out)@ + ent_decode(t));
        }
    } else if gt {
        push_char(out, '>');
        ent_append(v, lo + 4, hi, out);
        proof {
            assert(t.skip(4) =~= v@.subrange(lo + 4, hi as int));
            assert(old(out)@ + seq!['>'] + ent_decode(t.skip(4)) =~= old(out)@ + ent_decode(t));
        }
    } else if quo {
        push_char(out, '"');
        ent_append(v, lo + 6, hi, out);
        proof {
            assert(t.skip(6) =~= v@.subrange(lo + 6, hi as int));
            assert(old(out)@ + seq!['"'] + ent_decode(t.skip(6)) =~= old(out)@ + ent_decode(t));
        }
    } else if apo {
        push_char(out, '\'');
        ent_append(v, lo + 6, hi, out);
        proof {
            assert(t.skip(6) =~= v@.subrange(lo + 6, hi as int));
            assert(old(out)@ + seq!['\''] + ent_decode(t.skip(6)) =~= old(out)@ + ent_decode(t));
        }
    } else {
        push_char(out, v[lo]);
        ent_append(v, lo + 1, hi, out);
        proof {
            assert(t[0] == v@[lo as int]);
            assert(t.skip(1) =~= v@.subrange(lo + 1, hi as int));
            assert(old(out)@ + seq![t[0]] + ent_decode(t.skip(1)) =~= old(out)@ + ent_decode(t));
        }
    }
}

/// The text of a string-table item: the entity-decoded content of the first
/// `t` element found between `lo` and `hi`, or empty text when there is none.
pub open spec fn si_text(s: Seq<char>, lo: int, hi: int) -> Seq<char> {
    match find_open(s, seq!['t'], lo) {
        None => Seq::empty(),
        Some(ti) => {
            if ti < hi {
                match tag_end(s, ti, None) {
                    None => Seq::empty(),
                    Some((ta, tsc)) => {
                        if tsc {
                            Seq::empty()
                        } else {
                            match find_pat(s, seq!['<', '/', 't', '>'], ta) {
                                None => Seq::empty(),
                                Some(tc) => {
                                    if tc < hi {
                                        ent_decode(s.subrange(ta, tc))
                                    } else {
                                        Seq::empty()
                                    }
                                },
                            }
                        }
                    },
                }
            } else {
                Seq::empty()
            }
        },
    }
}

/// The texts of the string-table items from `from` on, in document order;
/// `None` when an item is left unclosed.
pub open spec fn sst_items(s: Seq<char>, from: int) -> Option<Seq<Seq<char>>>
    decreases s.len() - from,
    via sst_items_dec
{
    match find_open(s, seq!['s', 'i'], from) {
        None => Some(Seq::empty()),
        Some(i) => match tag_end(s, i, None) {
            None => None,
            Some((after, selfc)) => {
                if selfc {
                    match sst_items(s, after) {
                        None => None,
                        Some(rest) => Some(seq![Seq::<char>::empty()] + rest),
                    }
                } else {
                    match find_pat(s, seq!['<', '/', 's', 'i', '>'], after) {
                        None => None,
                        Some(cs) => match sst_items(s, cs + 5) {
                            None => None,
                            Some(rest) => Some(seq![si_text(s, after, cs)] + rest),
                        },
                    }
                }
            },
        },
    }
}

#[via_fn]
proof fn sst_items_dec(s: Seq<char>, from: int) {
    lemma_find_open_range(s, seq!['s', 'i'], from);
    match find_open(s, seq!['s', 'i'], from) {
        None => {},
        Some(i) => {
            lemma_tag_end_range(s, i, None);
            match tag_end(s, i, None) {
                None => {},
                Some((after, selfc)) => {
                    lemma_find_pat_range(s, seq!['<', '/', 's', 'i', '>'], after);
                },
            }
        },
    }
}

/// The whole string table: nothing at all yields an empty table; otherwise an
/// `sst` element must open, and its items follow.
pub open spec fn sst_texts(s: Seq<char>) -> Option<Seq<Seq<char>>> {
    if s.len() == 0 {
        Some(Seq::empty())
    } else {
        match find_open(s, seq!['s', 's', 't'], 0) {
            None => None,
            Some(i) => match tag_end(s, i, None) {
                None => None,
                Some((after, selfc)) => {
                    if selfc {
                        Some(Seq::empty())
                    } else {
                        sst_items(s, after)
                    }
                },
            },
        }
    }
}

/// The value of the attribute whose `name="` marker (the given pattern)
/// stands between `lo` and `hi`: the characters up to the closing quote.
pub open spec fn attr_value(s: Seq<char>, lo: int, hi: int, pat: Seq<char>) -> Option<Seq<char>> {
    match find_pat(s, pat, lo) {
        None => None,
        Some(p) => {
            let vs = p + pat.len();
            match find_pat(s, seq!['"'], vs) {
                None => None,
                Some(q) => {
                    if q < hi {
                        Some(s.subrange(vs, q))
                    } else {
                        None
                    }
                },
            }
        },
    }
}

/// The raw value text of a cell: the entity-decoded content of the first `v`
/// element between `lo` and `hi`, if one is present and closed.
pub open spec fn cell_value(s: Seq<char>, lo: int, hi: int) -> Option<Seq<char>> {
    match find_open(s, seq!['v'], lo) {
        None => None,
        Some(vi) => {
            if vi < hi {
                match tag_end(s, vi, None) {
                    None => None,
                    Some((va, vsc)) => {
                        if vsc {
                            None
                        } else {
                            match find_pat(s, seq!['<', '/', 'v', '>'], va) {
                                None => None,
                                Some(vc) => {
                                    if vc < hi {
                                        Some(ent_decode(s.subrange(va, vc)))
                                    } else {
                                        None
                                    }
                                },
                            }
                        }
                    },
                }
            } else {
                None
            }
        },
    }
}

/// The inline text of a cell: the text of the first `is` element between
/// `lo` and `hi`, if one is present.
pub open spec fn cell_inline(s: Seq<char>, lo: int, hi: int) -> Option<Seq<char>> {
    match find_open(s, seq!['i', 's'], lo) {
        None => None,
        Some(ii) => {
            if ii < hi {
                match tag_end(s, ii, None) {
                    None => None,
                    Some((ia, isc)) => {
                        if isc {
                            Some(Seq::empty())
                        } else {
                            match find_pat(s, seq!['<', '/', 'i', 's', '>'], ia) {
                                None => None,
                                Some(ic) => {
                                    if ic < hi {
                                        Some(si_text(s, ia, ic))
                                    } else {
                                        None
                                    }
                                },
                            }
                        }
                    },
                }
            } else {
                None
            }
        },
    }
}

/// The cells of one row, read from `from` up to the row's closing tag at
/// `hi`: each `c` element gives its `r`, `s` and `t` attributes and, unless
/// self-closing, its value and inline texts. `None` when a cell is unclosed.
pub open spec fn cells_items(s: Seq<char>, from: int, hi: int) -> Option<Seq<CellRec>>
    decreases s.len() - from,
    via cells_items_dec
{
    match find_open(s, seq!['c'], from) {
        None => Some(Seq::empty()),
        Some(i) => {
            if i >= hi {
                Some(Seq::empty())
            } else {
                match tag_end(s, i, None) {
                    None => None,
                    Some((after, selfc)) => {
                        let address = attr_value(s, i, after, seq![' ', 'r', '=', '"']);
                        let style = attr_value(s, i, after, seq![' ', 's', '=', '"']);
                        let type_tag = attr_value(s, i, after, seq![' ', 't', '=', '"']);
                        if selfc {
                            let rec = CellRec {
                                address,
                                style,
                                type_tag,
                                value: None,
                                inline: None,
                            };
                            match cells_items(s, after, hi) {
                                None => None,
                                Some(rest) => Some(seq![rec] + rest),
                            }
                        } else {
                            match find_pat(s, seq!['<', '/', 'c', '>'], after) {
                                None => None,
                                Some(cc) => {
                                    let rec = CellRec {
                                        address,
                                        style,
                                        type_tag,
                                        value: cell_value(s, after, cc),
                                        inline: cell_inline(s, after, cc),
                                    };
                                    match cells_items(s, cc + 4, hi) {
                                        None => None,
                                        Some(rest) => Some(seq![rec] + rest),
                                    }
                                },
                            }
                        }
                    },
                }
            }
        },
    }
}

#[via_fn]
proof fn cells_items_dec(s: Seq<char>, from: int, hi: int) {
    lemma_find_open_range(s, seq!['c'], from);
    match find_open(s, seq!['c'], from) {
        None => {},
        Some(i) => {
            lemma_tag_end_range(s, i, None);
            match tag_end(s, i, None) {
                None => {},
                Some((after, selfc)) => {
                    lemma_find_pat_range(s, seq!['<', '/', 'c', '>'], after);
                },
            }
        },
    }
}

/// The rows from `from` on: each `row` element gives its list of cells; a
/// self-closing row has none. `None` when a row or a cell is unclosed.
pub open spec fn rows_items(s: Seq<char>, from: int) -> Option<Seq<Seq<CellRec>>>
    decreases s.len() - from,
    via rows_items_dec
{
    match find_open(s, seq!['r', 'o', 'w'], from) {
        None => Some(Seq::empty()),
        Some(i) => match tag_end(s, i, None) {
            None => None,
            Some((after, selfc)) => {
                if selfc {
                    match rows_items(s, after) {
                        None => None,
                        Some(rest) => Some(seq![Seq::<CellRec>::empty()] + rest),
                    }
                } else {
                    match find_pat(s, seq!['<', '/', 'r', 'o', 'w', '>'], after) {
                        None => None,
                        Some(rc) => match cells_items(s, after, rc) {
                            None => None,
                            Some(cs) => match rows_items(s, rc + 6) {
                                None => None,
                                Some(rest) => Some(seq![cs] + rest),
                            },
                        },
                    }
                }
            },
        },
    }
}

#[via_fn]
proof fn rows_items_dec(s: Seq<char>, from: int) {
    lemma_find_open_range(s, seq!['r', 'o', 'w'], from);
    match find_open(s, seq!['r', 'o', 'w'], from) {
        None => {},
        Some(i) => {
            lemma_tag_end_range(s, i, None);
            match tag_end(s, i, None) {
                None => {},
                Some((after, selfc)) => {
                    lemma_find_pat_range(s, seq!['<', '/', 'r', 'o', 'w', '>'], after);
                },
            }
        },
    }
}

/// The rows of the worksheet: the `sheetData` element must open, and its
/// rows follow; a self-closing `sheetData` has none.
pub open spec fn sheet_cells(s: Seq<char>) -> Option<Seq<Seq<CellRec>>> {
    match find_open(s, seq!['s', 'h', 'e', 'e', 't', 'D', 'a', 't', 'a'], 0) {
        None => None,
        Some(i) => match tag_end(s, i, None) {
            None => None,
            Some((after, selfc)) => {
                if selfc {
                    Some(Seq::empty())
                } else {
                    rows_items(s, after)
                }
            },
        },
    }
}

pub open spec fn view_cells(v: Seq<RawCell>) -> Seq<CellRec> {
    v.map_values(|c: RawCell| view_cell(c))
}

pub open spec fn view_rows(v: Seq<Vec<RawCell>>) -> Seq<Seq<CellRec>> {
    v.map_values(|rv: Vec<RawCell>| view_cells(rv@))
}

pub open spec fn view_texts(v: Seq<String>) -> Seq<Seq<char>> {
    v.map_values(|s: String| s@)
}


fn pat1(a: char) -> (p: Vec<char>)
    ensures
        p@ == seq![a],
{
    let mut p: Vec<char> = Vec::new();
    p.push(a);
    proof {
        assert(p@ =~= seq![a]);
    }
    p
}

fn pat2(a: char, b: char) -> (p: Vec<char>)
    ensures
        p@ == seq![a, b],
{
    let mut p = pat1(a);
    p.push(b);
    proof {
        assert(p@ =~= seq![a, b]);
    }
    p
}

fn pat3(a: char, b: char, c: char) -> (p: Vec<char>)
    ensures
        p@ == seq![a, b, c],
{
    let mut p = pat2(a, b);
    p.push(c);
    proof {
        assert(p@ =~= seq![a, b, c]);
    }
    p
}

fn pat4(a: char, b: char, c: char, d: char) -> (p: Vec<char>)
    ensures
        p@ == seq![a, b, c, d],
{
    let mut p = pat3(a, b, c);
    p.push(d);
    proof {
        assert(p@ =~= seq![a, b, c, d]);
    }
    p
}

fn pat5(a: char, b: char, c: char, d: char, e: char) -> (p: Vec<char>)
    ensures
        p@ == seq![a, b, c, d, e],
{
    let mut p = pat4(a, b, c, d);
    p.push(e);
    proof {
        assert(p@ =~= seq![a, b, c, d, e]);
    }
    p
}

fn pat6(a: char, b: char, c: char, d: char, e: char, f: char) -> (p: Vec<char>)
    ensures
        p@ == seq![a, b, c, d, e, f],
{
    let mut p = pat5(a, b, c, d, e);
    p.push(f);
    proof {
        assert(p@ =~= seq![a, b, c, d, e, f]);
    }
    p
}

fn pat_sheet_data() -> (p: Vec<char>)
    ensures
        p@ == seq!['s', 'h', 'e', 'e', 't', 'D', 'a', 't', 'a'],
{
    let mut p = pat6('s', 'h', 'e', 'e', 't', 'D');
    p.push('a');
    p.push('t');
    p.push('a');
    proof {
        assert(p@ =~= seq!['s', 'h', 'e', 'e', 't', 'D', 'a', 't', 'a']);
    }
    p
}

fn si_text_x(v: &Vec<char>, lo: usize, hi: usize) -> (r: String)
    ensures
        r@ == si_text(v@, lo as int, hi as int),
{
    let name = pat1('t');
    match find_open_x(v, &name, lo) {
        None => String::new(),
        Some(ti) => {
            if ti < hi {
                match tag_end_x(v, ti) {
                    None => String::new(),
                    Some((ta, tsc)) => {
                        if tsc {
                            String::new()
                        } else {
                            let close = pat4('<', '/', 't', '>');
                            match find_pat_x(v, &close, ta) {
                                None => String::new(),
                                Some(tc) => {
                                    if tc < hi {
                                        let mut out = String::new();
                                        ent_append(v, ta, tc, &mut out);
                                        proof {
                                            assert(out@ =~= ent_decode(
                                                v@.subrange(ta as int, tc as int),
                                            ));
                                        }
                                        out
                                    } else {
                                        String::new()
                                    }
                                },
                            }
                        }
                    },
                }
            } else {
                String::new()
            }
        },
    }
}

fn attr_value_x(v: &Vec<char>, lo: usize, hi: usize, pat: &Vec<char>) -> (r: Option<String>)
    ensures
        match r {
            Some(t) => attr_value(v@, lo as int, hi as int, pat@) == Some(t@),
            None => attr_value(v@, lo as int, hi as int, pat@) is None,
        },
{
    let n = v.len();
    match find_pat_x(v, pat, lo) {
        None => None,
        Some(p) => {
            proof {
                assert(p + pat@.len() <= n);
            }
            let vs: usize = p + pat.len();
            let quote = pat1('"');
            match find_pat_x(v, &quote, vs) {
                None => None,
                Some(q) => {
                    if q < hi {
                        Some(copy_string(v, vs, q))
                    } else {
                        None
                    }
                },
            }
        },
    }
}

fn cell_value_x(v: &Vec<char>, lo: usize, hi: usize) -> (r: Option<String>)
    ensures
        match r {
            Some(t) => cell_value(v@, lo as int, hi as int) == Some(t@),
            None => cell_value(v@, lo as int, hi as int) is None,
        },
{
    let name = pat1('v');
    match find_open_x(v, &name, lo) {
        None => None,
        Some(vi) => {
            if vi < hi {
                match tag_end_x(v, vi) {
                    None => None,
                    Some((va, vsc)) => {
                        if vsc {
                            None
                        } else {
                            let close = pat4('<', '/', 'v', '>');
                            match find_pat_x(v, &close, va) {
                                None => None,
                                Some(vc) => {
                                    if vc < hi {
                                        let mut out = String::new();
                                        ent_append(v, va, vc, &mut out);
                                        proof {
                                            assert(out@ =~= ent_decode(
                                                v@.subrange(va as int, vc as int),
                                            ));
                                        }
                                        Some(out)
                                    } else {
                                        None
                                    }
                                },
                            }
                        }
                    },
                }
            } else {
                None
            }
        },
    }
}

fn cell_inline_x(v: &Vec<char>, lo: usize, hi: usize) -> (r: Option<String>)
    ensures
        match r {
            Some(t) => cell_inline(v@, lo as int, hi as int) == Some(t@),
            None => cell_inline(v@, lo as int, hi as int) is None,
        },
{
    let name = pat2('i', 's');
    match find_open_x(v, &name, lo) {
        None => None,
        Some(ii) => {
            if ii < hi {
                match tag_end_x(v, ii) {
                    None => None,
                    Some((ia, isc)) => {
                        if isc {
                            Some(String::new())
                        } else {
                            let close = pat5('<', '/', 'i', 's', '>');
                            match find_pat_x(v, &close, ia) {
                                None => None,
                                Some(ic) => {
                                    if ic < hi {
                                        Some(si_text_x(v, ia, ic))
                                    } else {
                                        None
                                    }
                                },
                            }
                        }
                    },
                }
            } else {
                None
            }
        },
    }
}

/// Read the string-table texts out of a shared-strings document.
pub fn sst_texts_x(v: &Vec<char>) -> (r: Option<Vec<String>>)
    ensures
        match r {
            Some(ts) => sst_texts(v@) == Some(view_texts(ts@)),
            None => sst_texts(v@) is None,
        },
{
    if v.len() == 0 {
        let acc: Vec<String> = Vec::new();
        proof {
            assert(view_texts(acc@) =~= Seq::<Seq<char>>::empty());
        }
        return Some(acc);
    }
    let sst_name = pat3('s', 's', 't');
    let start: usize = match find_open_x(v, &sst_name, 0) {
        None => {
            return None;
        },
        Some(i) => match tag_end_x(v, i) {
            None => {
                return None;
            },
            Some((after, selfc)) => {
                if selfc {
                    let acc: Vec<String> = Vec::new();
                    proof {
                        assert(view_texts(acc@) =~= Seq::<Seq<char>>::empty());
                    }
                    return Some(acc);
                }
                after
            },
        },
    };
    let si_name = pat2('s', 'i');
    let si_close = pat5('<', '/', 's', 'i', '>');
    let mut acc: Vec<String> = Vec::new();
    let mut pos: usize = start;
    proof {
        assert(view_texts(acc@) =~= Seq::<Seq<char>>::empty());
    }
    loop
        invariant
            pos <= v@.len(),
            v@.len() <= usize::MAX,
            si_name@ == seq!['s', 'i'],
            si_close@ == seq!['<', '/', 's', 'i', '>'],
            sst_texts(v@) == (match sst_items(v@, pos as int) {
                Some(rest) => Some(view_texts(acc@) + rest),
                None => None::<Seq<Seq<char>>>,
            }),
        decreases v@.len() - pos,
    {
        match find_open_x(v, &si_name, pos) {
            None => {
                proof {
                    assert(view_texts(acc@) + Seq::<Seq<char>>::empty() =~= view_texts(acc@));
                }
                return Some(acc);
            },
            Some(i) => {
                match tag_end_x(v, i) {
                    None => {
                        return None;
                    },
                    Some((after, selfc)) => {
                        if selfc {
                            let ghost old_acc = acc@;
                            acc.push(String::new());
                            proof {
                                assert(view_texts(acc@) =~= view_texts(old_acc) + seq![
                                    Seq::<char>::empty(),
                                ]);
                                if sst_items(v@, after as int) is Some {
                                    assert(view_texts(old_acc) + (seq![Seq::<char>::empty()]
                                        + sst_items(v@, after as int)->Some_0) =~= view_texts(acc@)
                                        + sst_items(v@, after as int)->Some_0);
                                }
                            }
                            pos = after;
                        } else {
                            match find_pat_x(v, &si_close, after) {
                                None => {
                                    return None;
                                },
                                Some(cs) => {
                                    let t = si_text_x(v, after, cs);
                                    let ghost old_acc = acc@;
                                    acc.push(t);
                                    proof {
                                        assert(view_texts(acc@) =~= view_texts(old_acc) + seq![
                                            si_text(v@, after as int, cs as int),
                                        ]);
                                        if sst_items(v@, cs + 5) is Some {
                                            assert(view_texts(old_acc) + (seq![
                                                si_text(v@, after as int, cs as int),
                                            ] + sst_items(v@, cs + 5)->Some_0) =~= view_texts(acc@)
                                                + sst_items(v@, cs + 5)->Some_0);
                                        }
                                    }
                                    pos = cs + 5;
                                },
                            }
                        }
                    },
                }
            },
        }
    }
}

/// Read one row's cells out of the worksheet text, between `from` and the
/// row's closing tag at `hi`.
fn cells_items_x(v: &Vec<char>, from: usize, hi: usize) -> (r: Option<Vec<RawCell>>)
    requires
        from <= v@.len(),
    ensures
        match r {
            Some(cs) => cells_items(v@, from as int, hi as int) == Some(view_cells(cs@)),
            None => cells_items(v@, from as int, hi as int) is None,
        },
{
    let n = v.len();
    let c_name = pat1('c');
    let c_close = pat4('<', '/', 'c', '>');
    let r_attr = pat4(' ', 'r', '=', '"');
    let s_attr = pat4(' ', 's', '=', '"');
    let t_attr = pat4(' ', 't', '=', '"');
    let mut acc: Vec<RawCell> = Vec::new();
    let mut pos: usize = from;
    proof {
        assert(view_cells(acc@) =~= Seq::<CellRec>::empty());
    }
    loop
        invariant
            pos <= v@.len(),
            n == v@.len() <= usize::MAX,
            c_name@ == seq!['c'],
            c_close@ == seq!['<', '/', 'c', '>'],
            r_attr@ == seq![' ', 'r', '=', '"'],
            s_attr@ == seq![' ', 's', '=', '"'],
            t_attr@ == seq![' ', 't', '=', '"'],
            cells_items(v@, from as int, hi as int) == (match cells_items(
                v@,
                pos as int,
                hi as int,
            ) {
                Some(rest) => Some(view_cells(acc@) + rest),
                None => None::<Seq<CellRec>>,
            }),
        decreases v@.len() - pos,
    {
        match find_open_x(v, &c_name, pos) {
            None => {
                proof {
                    assert(view_cells(acc@) + Seq::<CellRec>::empty() =~= view_cells(acc@));
                }
                return Some(acc);
            },
            Some(i) => {
                if i >= hi {
                    proof {
                        assert(view_cells(acc@) + Seq::<CellRec>::empty() =~= view_cells(acc@));
                    }
                    return Some(acc);
                }
                match tag_end_x(v, i) {
                    None => {
                        return None;
                    },
                    Some((after, selfc)) => {
                        let address = attr_value_x(v, i, after, &r_attr);
                        let style = attr_value_x(v, i, after, &s_attr);
                        let type_tag = attr_value_x(v, i, after, &t_attr);
                        if selfc {
                            let rec = RawCell { address, style, type_tag, value: None, inline: None };
                            let ghost vrec = view_cell(rec);
                            let ghost old_acc = acc@;
                            acc.push(rec);
                            proof {
                                assert(view_cells(acc@) =~= view_cells(old_acc) + seq![vrec]);
                                if cells_items(v@, after as int, hi as int) is Some {
                                    assert(view_cells(old_acc) + (seq![vrec] + cells_items(
                                        v@,
                                        after as int,
                                        hi as int,
                                    )->Some_0) =~= view_cells(acc@) + cells_items(
                                        v@,
                                        after as int,
                                        hi as int,
                                    )->Some_0);
                                }
                            }
                            pos = after;
                        } else {
                            match find_pat_x(v, &c_close, after) {
                                None => {
                                    return None;
                                },
                                Some(cc) => {
                                    let value = cell_value_x(v, after, cc);
                                    let inline = cell_inline_x(v, after, cc);
                                    let rec = RawCell { address, style, type_tag, value, inline };
                                    let ghost vrec = view_cell(rec);
                                    let ghost old_acc = acc@;
                                    acc.push(rec);
                                    proof {
                                        assert(view_cells(acc@) =~= view_cells(old_acc)
                                            + seq![vrec]);
                                        if cells_items(v@, cc + 4, hi as int) is Some {
                                            assert(view_cells(old_acc) + (seq![vrec] + cells_items(
                                                v@,
                                                cc + 4,
                                                hi as int,
                                            )->Some_0) =~= view_cells(acc@) + cells_items(
                                                v@,
                                                cc + 4,
                                                hi as int,
                                            )->Some_0);
                                        }
                                    }
                                    pos = cc + 4;
                                },
                            }
                        }
                    },
                }
            },
        }
    }
}

/// Read the rows of a worksheet document.
pub fn sheet_cells_x(v: &Vec<char>) -> (r: Option<Vec<Vec<RawCell>>>)
    ensures
        match r {
            Some(rows) => sheet_cells(v@) == Some(view_rows(rows@)),
            None => sheet_cells(v@) is None,
        },
{
    let sd_name = pat_sheet_data();
    let start: usize = match find_open_x(v, &sd_name, 0) {
        None => {
            return None;
        },
        Some(i) => match tag_end_x(v, i) {
            None => {
                return None;
            },
            Some((after, selfc)) => {
                if selfc {
                    let acc: Vec<Vec<RawCell>> = Vec::new();
                    proof {
                        assert(view_rows(acc@) =~= Seq::<Seq<CellRec>>::empty());
                    }
                    return Some(acc);
                }
                after
            },
        },
    };
    let n = v.len();
    let row_name = pat3('r', 'o', 'w');
    let row_close = pat6('<', '/', 'r', 'o', 'w', '>');
    let mut acc: Vec<Vec<RawCell>> = Vec::new();
    let mut pos: usize = start;
    proof {
        assert(view_rows(acc@) =~= Seq::<Seq<CellRec>>::empty());
    }
    loop
        invariant
            pos <= v@.len(),
            n == v@.len() <= usize::MAX,
            row_name@ == seq!['r', 'o', 'w'],
            row_close@ == seq!['<', '/', 'r', 'o', 'w', '>'],
            sheet_cells(v@) == (match rows_items(v@, pos as int) {
                Some(rest) => Some(view_rows(acc@) + rest),
                None => None::<Seq<Seq<CellRec>>>,
            }),
        decreases v@.len() - pos,
    {
        match find_open_x(v, &row_name, pos) {
            None => {
                proof {
                    assert(view_rows(acc@) + Seq::<Seq<CellRec>>::empty() =~= view_rows(acc@));
                }
                return Some(acc);
            },
            Some(i) => {
                match tag_end_x(v, i) {
                    None => {
                        return None;
                    },
                    Some((after, selfc)) => {
                        if selfc {
                            let ghost old_acc = acc@;
                            let empty_row: Vec<RawCell> = Vec::new();
                            proof {
                                assert(view_cells(empty_row@) =~= Seq::<CellRec>::empty());
                            }
                            acc.push(empty_row);
                            proof {
                                assert(view_rows(acc@) =~= view_rows(old_acc) + seq![Seq::<
                                    CellRec,
                                >::empty()]);
                                if rows_items(v@, after as int) is Some {
                                    assert(view_rows(old_acc) + (seq![Seq::<CellRec>::empty()]
                                        + rows_items(v@, after as int)->Some_0) =~= view_rows(acc@)
                                        + rows_items(v@, after as int)->Some_0);
                                }
                            }
                            pos = after;
                        } else {
                            match find_pat_x(v, &row_close, after) {
                                None => {
                                    return None;
                                },
                                Some(rc) => {
                                    match cells_items_x(v, after, rc) {
                                        None => {
                                            return None;
                                        },
                                        Some(cs) => {
                                            let ghost vcs = view_cells(cs@);
                                            let ghost old_acc = acc@;
                                            acc.push(cs);
                                            proof {
                                                assert(view_rows(acc@) =~= view_rows(old_acc)
                                                    + seq![vcs]);
                                                if rows_items(v@, rc + 6) is Some {
                                                    assert(view_rows(old_acc) + (seq![vcs]
                                                        + rows_items(v@, rc + 6)->Some_0)
                                                        =~= view_rows(acc@) + rows_items(
                                                        v@,
                                                        rc + 6,
                                                    )->Some_0);
                                                }
                                            }
                                            pos = rc + 6;
                                        },
                                    }
                                },
                            }
                        }
                    },
                }
            },
        }
    }
}

} // verus!
