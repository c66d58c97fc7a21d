use vstd::prelude::*;
use crate::text::{dec_digits, append_u64, push_char};

verus! {

/// The letter for one bijective-base-26 digit value (0 maps to 'A').
pub open spec fn letter_char(k: nat) -> char {
    ((65 + k) as u8) as char
}

/// Letters of the positive number `n` in bijective base 26, where the digits
/// run 1 through 26 and there is no zero digit; `bij26(0)` is empty.
pub open spec fn bij26(n: nat) -> Seq<char>
    decreases n,
{
    if n == 0 {
        Seq::empty()
    } else {
        bij26((((n - 1) as nat) / 26) as nat) + seq![letter_char((((n - 1) as nat) % 26) as nat)]
    }
}

/// Column letters of a zero-based column index.
pub open spec fn col_letters(cell: nat) -> Seq<char> {
    bij26(cell + 1)
}

/// A full cell address: column letters followed by the 1-based row number.
pub open spec fn cell_addr(row: nat, cell: nat) -> Seq<char> {
    col_letters(cell) + dec_digits(row)
}

/// Value of a letter sequence read as a bijective-base-26 numeral.
pub open spec fn letters_val(s: Seq<char>) -> int
    decreases s.len(),
{
    if s.len() == 0 {
        0
    } else {
        letters_val(s.drop_last()) * 26 + ((s.last() as int) - 64)
    }
}

proof fn lemma_bij26_val(n: nat)
    ensures
        letters_val(bij26(n)) == n,
    decreases n,
{
    if n != 0 {
        let q = (((n - 1) as nat) / 26) as nat;
        let r = (((n - 1) as nat) % 26) as nat;
        lemma_bij26_val(q);
        vstd::arithmetic::div_mod::lemma_fundamental_div_mod((n - 1) as int, 26);
        let s = bij26(n);
        assert(s.drop_last() =~= bij26(q));
        assert(s.last() == letter_char(r));
        assert(letter_char(r) as int == 65 + r);
    }
}

/// Column-codec inverse law: reading the letters produced for a zero-based
/// index back as a bijective-base-26 numeral yields that index again.
pub proof fn lemma_column_roundtrip(i: nat)
    ensures
        letters_val(col_letters(i)) - 1 == i,
{
    lemma_bij26_val(i + 1);
}

pub open spec fn is_col_letter(c: char) -> bool {
    'A' <= c && c <= 'Z'
}

pub open spec fn all_col_letters(s: Seq<char>) -> bool {
    forall|i: int| 0 <= i < s.len() ==> is_col_letter(#[trigger] s[i])
}

/// The zero-based column index a letter sequence denotes: defined for a
/// non-empty sequence of column letters whose index fits this machine.
pub open spec fn col_index_of(s: Seq<char>) -> Option<int> {
    if s.len() == 0 || !all_col_letters(s) {
        None
    } else if letters_val(s) - 1 > usize::MAX {
        None
    } else {
        Some(letters_val(s) - 1)
    }
}

proof fn lemma_bij26_letters(n: nat)
    ensures
        all_col_letters(bij26(n)),
    decreases n,
{
    if n != 0 {
        let q = (((n - 1) as nat) / 26) as nat;
        let r = (((n - 1) as nat) % 26) as nat;
        lemma_bij26_letters(q);
        vstd::arithmetic::div_mod::lemma_mod_bound((n - 1) as int, 26);
        assert(r < 26);
        assert(is_col_letter(letter_char(r)));
        assert(forall|i: int|
            0 <= i < bij26(n).len() ==> is_col_letter(#[trigger] bij26(n)[i])) by {
            assert(forall|i: int|
                0 <= i < bij26(q).len() ==> #[trigger] bij26(n)[i] == bij26(q)[i]);
            assert(bij26(n)[bij26(n).len() - 1] == letter_char(r));
        }
    }
}

proof fn lemma_letters_val_bounds(s: Seq<char>)
    requires
        all_col_letters(s),
    ensures
        letters_val(s) >= 0,
        s.len() > 0 ==> letters_val(s) >= 1,
    decreases s.len(),
{
    if s.len() > 0 {
        assert(all_col_letters(s.drop_last())) by {
            assert(forall|i: int|
                0 <= i < s.len() - 1 ==> #[trigger] s.drop_last()[i] == s[i]);
        }
        lemma_letters_val_bounds(s.drop_last());
        assert(is_col_letter(s.last()));
        assert((s.last() as int) - 64 >= 1);
    }
}

proof fn lemma_letters_val_prefix_le(s: Seq<char>, j: int)
    requires
        0 <= j <= s.len(),
        all_col_letters(s),
    ensures
        letters_val(s.subrange(0, j)) <= letters_val(s),
    decreases s.len() - j,
{
    if j == s.len() {
        assert(s.subrange(0, j) =~= s);
    } else {
        lemma_letters_val_prefix_le(s, j + 1);
        let p = s.subrange(0, j + 1);
        assert(p.drop_last() =~= s.subrange(0, j));
        assert(all_col_letters(p)) by {
            assert(forall|i: int| 0 <= i < p.len() ==> #[trigger] p[i] == s[i]);
        }
        lemma_letters_val_bounds(p.drop_last());
        assert(is_col_letter(p.last()));
        assert(letters_val(p) == letters_val(p.drop_last()) * 26 + ((p.last() as int) - 64));
    }
}

/// Column-codec inverse law at the index type: the letters produced for any
/// representable zero-based index decode to exactly that index.
pub proof fn lemma_col_index_roundtrip(i: usize)
    ensures
        col_index_of(col_letters(i as nat)) == Some(i as int),
{
    lemma_bij26_val((i + 1) as nat);
    lemma_bij26_letters((i + 1) as nat);
    assert(letters_val(col_letters(i as nat)) == i + 1);
    assert(col_letters(i as nat).len() > 0) by {
        if col_letters(i as nat).len() == 0 {
            assert(letters_val(col_letters(i as nat)) == 0);
        }
    }
}

/// Decode spreadsheet column letters back to the zero-based column index.
pub fn letters_to_index(letters: &str) -> (r: Option<usize>)
    ensures
        match r {
            Some(i) => col_index_of(letters@) == Some(i as int),
            None => col_index_of(letters@) is None,
        },
{
    let v = crate::text::str_chars(letters);
    let n: usize = v.len();
    if n == 0 {
        return None;
    }
    let mut idx: usize = 0;
    let mut i: usize = 0;
    while i < n
        invariant
            0 <= i <= n,
            n == v@.len() == letters@.len(),
            v@ == letters@,
            all_col_letters(letters@.subrange(0, i as int)),
            i > 0 ==> idx as int == letters_val(letters@.subrange(0, i as int)) - 1,
            i == 0 ==> idx == 0,
        decreases n - i,
    {
        let c = v[i];
        if !('A' <= c && c <= 'Z') {
            proof {
                assert(letters@[i as int] == c);
                assert(!is_col_letter(letters@[i as int]));
                assert(!all_col_letters(letters@));
            }
            return None;
        }
        let d: usize = (c as usize) - 64;
        proof {
            let p = letters@.subrange(0, i + 1);
            assert(p.drop_last() =~= letters@.subrange(0, i as int));
            assert(p.last() == c);
            assert(all_col_letters(p)) by {
                assert(forall|k: int| 0 <= k < p.len() ==> #[trigger] p[k] == letters@[k]);
            }
            if i == 0 {
                assert(letters@.subrange(0, 0) =~= Seq::<char>::empty());
                assert(letters_val(Seq::<char>::empty()) == 0);
                assert(letters_val(p) == letters_val(p.drop_last()) * 26 + ((p.last() as int)
                    - 64));
                assert(letters_val(p) == (c as int) - 64);
            }
            vstd::arithmetic::div_mod::lemma_fundamental_div_mod(
                (usize::MAX - 25 - d) as int,
                26,
            );
            vstd::arithmetic::div_mod::lemma_mod_bound((usize::MAX - 25 - d) as int, 26);
        }
        if i > 0 && idx > (usize::MAX - 25 - d) / 26 {
            proof {
                let p = letters@.subrange(0, i + 1);
                assert(letters_val(p) == (idx + 1) * 26 + ((c as int) - 64));
                assert(letters_val(p) - 1 > usize::MAX);
                if all_col_letters(letters@) {
                    lemma_letters_val_prefix_le(letters@, i + 1);
                    assert(letters_val(letters@) - 1 > usize::MAX);
                }
            }
            return None;
        }
        if i == 0 {
            idx = d - 1;
        } else {
            idx = idx * 26 + 25 + d;
        }
        i += 1;
    }
    proof {
        assert(letters@.subrange(0, n as int) =~= letters@);
    }
    Some(idx)
}

fn append_bij26(out: &mut String, n: usize)
    ensures
        final(out)@ == old(out)@ + bij26(n as nat),
    decreases n,
{
    if n > 0 {
        let m: usize = (n - 1) % 26;
        append_bij26(out, (n - 1) / 26);
        push_char(out, (65 + m as u8) as char);
        proof {
            assert(old(out)@ + bij26(((n - 1) / 26) as nat) + seq![letter_char(m as nat)]
                =~= old(out)@ + bij26(n as nat));
        }
    } else {
        proof {
            assert(old(out)@ + bij26(0) =~= old(out)@);
        }
    }
}

/// The spreadsheet column letters of a zero-based column index.
pub fn index_to_letters(index: usize) -> (r: String)
    requires
        index < usize::MAX,
    ensures
        r@ == col_letters(index as nat),
{
    let mut out = String::new();
    append_bij26(&mut out, index + 1);
    proof {
        assert(Seq::<char>::empty() + col_letters(index as nat) =~= col_letters(index as nat));
    }
    out
}

/// The address of the cell in the given 1-based row and zero-based column:
/// the column letters followed by the row number.
pub fn excel_str_cell(row: usize, cell: usize) -> (r: String)
    requires
        cell < usize::MAX,
    ensures
        r@ == cell_addr(row as nat, cell as nat),
{
    let mut out = String::new();
    append_bij26(&mut out, cell + 1);
    append_u64(&mut out, row as u64);
    proof {
        assert(Seq::<char>::empty() + col_letters(cell as nat) + dec_digits(row as nat)
            =~= cell_addr(row as nat, cell as nat));
    }
    out
}

} // verus!
