//! A saved game reads back as the same game.

use vstd::prelude::*;
use crate::data::{Data, spec_index_to_coords, spec_coords_to_index};
use crate::save::{
    tokens, tokens_from, token_value, tokens_ok, token_values, take_count, encode_numbers,
    indices_of, coords_set, word_of, chunk_len, clicked_words, chunk_count, word_bits, bit_set,
    bits_set, bits_upto, save_method, saved_clicked, saved_numbers, save_text, save_fits, read_data,
    read_fits, header, header_read, DataRead, DataContainmentMethod, method_letter, method_of_letter,
};
use crate::text::{is_digit, all_digits, decimal, digits_value, lemma_decimal_digits};

verus! {

broadcast use vstd::seq_lib::group_seq_properties;

/// Digits carry over into the run being read.
proof fn lemma_tokens_digits(ds: Seq<char>, rest: Seq<char>, acc: Seq<char>)
    requires
        all_digits(ds),
    ensures
        tokens_from(ds + rest, acc) == tokens_from(rest, acc + ds),
    decreases ds.len(),
{
    if ds.len() == 0 {
        assert(ds + rest =~= rest);
        assert(acc + ds =~= acc);
    } else {
        let s = ds + rest;
        assert(s[0] == ds[0]);
        assert(s.drop_first() =~= ds.drop_first() + rest);
        lemma_tokens_digits(ds.drop_first(), rest, acc.push(ds[0]));
        assert(acc.push(ds[0]) + ds.drop_first() =~= acc + ds);
    }
}

/// A comma ends the run being read.
proof fn lemma_tokens_comma(rest: Seq<char>, acc: Seq<char>)
    ensures
        tokens_from(seq![','] + rest, acc) == seq![acc] + tokens_from(rest, Seq::empty()),
{
    let s = seq![','] + rest;
    assert(s[0] == ',');
    assert(!is_digit(','));
    assert(s.drop_first() =~= rest);
}

/// Writing numbers one after another writes their texts one after another.
proof fn lemma_encode_concat(a: Seq<usize>, b: Seq<usize>)
    ensures
        encode_numbers(a + b) == encode_numbers(a) + encode_numbers(b),
    decreases b.len(),
{
    if b.len() == 0 {
        assert(a + b =~= a);
        assert(encode_numbers(a) + encode_numbers(b) =~= encode_numbers(a));
    } else {
        lemma_encode_concat(a, b.drop_last());
        assert((a + b).drop_last() =~= a + b.drop_last());
        assert((a + b).last() == b.last());
        assert(encode_numbers(a + b) =~= encode_numbers(a) + encode_numbers(b));
    }
}

/// The runs read from written numbers are the numbers' texts.
proof fn lemma_tokens_encode(ns: Seq<usize>)
    ensures
        tokens(encode_numbers(ns)) == Seq::new(ns.len(), |i: int| decimal(ns[i] as nat)),
    decreases ns.len(),
{
    if ns.len() == 0 {
        assert(tokens(encode_numbers(ns)) =~= Seq::<Seq<char>>::empty());
    } else {
        let first = seq![ns[0]];
        let rest = ns.drop_first();
        assert(ns =~= first + rest);
        lemma_encode_concat(first, rest);
        assert(first.drop_last() =~= Seq::<usize>::empty());
        assert(encode_numbers(first.drop_last()) =~= Seq::<char>::empty());
        assert(first.last() == ns[0]);
        assert(encode_numbers(first) =~= decimal(ns[0] as nat) + seq![',']);
        lemma_decimal_digits(ns[0] as nat);
        let text = encode_numbers(rest);
        assert(encode_numbers(ns) =~= decimal(ns[0] as nat) + (seq![','] + text));
        lemma_tokens_digits(decimal(ns[0] as nat), seq![','] + text, Seq::empty());
        assert(Seq::<char>::empty() + decimal(ns[0] as nat) =~= decimal(ns[0] as nat));
        lemma_tokens_comma(text, decimal(ns[0] as nat));
        lemma_tokens_encode(rest);
        assert(tokens(encode_numbers(ns)) =~= Seq::new(ns.len(), |i: int| decimal(ns[i] as nat)));
    }
}

/// The runs read from written numbers give the numbers back.
proof fn lemma_values_encode(ns: Seq<usize>)
    ensures
        tokens(encode_numbers(ns)).len() == ns.len(),
        forall|k: int| 0 <= k <= ns.len() ==> tokens_ok(tokens(encode_numbers(ns)), k),
        forall|k: int| 0 <= k <= ns.len() ==> token_values(tokens(encode_numbers(ns)), k) == ns.take(k),
{
    lemma_tokens_encode(ns);
    let toks = tokens(encode_numbers(ns));
    assert forall|j: int| 0 <= j < ns.len() implies token_value(toks[j]) == Some(ns[j]) by {
        lemma_decimal_digits(ns[j] as nat);
    }
    assert forall|k: int| 0 <= k <= ns.len() implies token_values(toks, k) == ns.take(k) by {
        assert(token_values(toks, k) =~= ns.take(k));
    }
}

/// Reading back the indices of cells on the board gives the cells.
proof fn lemma_coords_of_indices(s: Seq<(usize, usize)>, w: int)
    requires
        w >= 1,
        forall|i: int| 0 <= i < s.len() ==> (#[trigger] s[i]).0 < w && spec_coords_to_index(s[i], w) <= usize::MAX,
    ensures
        coords_set(indices_of(s, w), w) == s.to_set(),
{
    let f = |n: usize| spec_index_to_coords(n as int, w);
    let mapped = indices_of(s, w).map_values(f);
    assert forall|i: int| 0 <= i < s.len() implies mapped[i] == s[i] by {
        let p = s[i];
        let idx = spec_coords_to_index(p, w);
        assert(p.1 * w >= 0) by (nonlinear_arith) requires w >= 1;
        vstd::arithmetic::div_mod::lemma_fundamental_div_mod_converse(idx, w, p.1 as int, p.0 as int);
    }
    assert(mapped =~= s);
}

proof fn lemma_bit_or(a: usize, m: usize, i: usize)
    requires
        i < usize::BITS,
    ensures
        ((a | m) & (1usize << i) != 0) == ((a & (1usize << i) != 0) || (m & (1usize << i) != 0)),
{
    assert(((a | m) & (1usize << i) != 0) == ((a & (1usize << i) != 0) || (m & (1usize << i) != 0))) by (bit_vector)
        requires i < usize::BITS;
}

proof fn lemma_bit_single(l: usize, i: usize)
    requires
        l < usize::BITS,
        i < usize::BITS,
    ensures
        ((1usize << l) & (1usize << i) != 0) == (l == i),
{
    assert(((1usize << l) & (1usize << i) != 0) == (l == i)) by (bit_vector)
        requires l < usize::BITS, i < usize::BITS;
}

proof fn lemma_bit_zero(i: usize)
    ensures
        (0usize & (1usize << i)) == 0,
{
    assert((0usize & (1usize << i)) == 0) by (bit_vector);
}

/// Bit `i` of a word written for a run of cells says whether the cell is uncovered.
proof fn lemma_word_bits(c: Set<(usize, usize)>, y: usize, start: int, len: nat, i: int)
    requires
        len <= word_bits(),
        0 <= i < word_bits(),
        0 <= start,
        start + len <= usize::MAX + 1,
    ensures
        bit_set(word_of(c, y, start, len), i) == (i < len && c.contains(((start + i) as usize, y))),
    decreases len,
{
    if len == 0 {
        lemma_bit_zero(i as usize);
    } else {
        lemma_word_bits(c, y, start, (len - 1) as nat, i);
        let prev = word_of(c, y, start, (len - 1) as nat);
        let m = if c.contains(((start + len - 1) as usize, y)) {
            1usize << ((len - 1) as usize)
        } else {
            0usize
        };
        lemma_bit_or(prev, m, i as usize);
        lemma_bit_single((len - 1) as usize, i as usize);
        lemma_bit_zero(i as usize);
    }
}

/// Where column `x` of a row lies among the words of the row.
proof fn lemma_chunk_index(x: int, w: int)
    requires
        0 <= x < w,
    ensures
        0 <= x / word_bits() < chunk_count(w),
        (x / word_bits()) * word_bits() + x % word_bits() == x,
        0 <= x % word_bits() < chunk_len(w, x / word_bits()),
{
    let b = word_bits();
    assert(b == 32 || b == 64);
    vstd::arithmetic::div_mod::lemma_fundamental_div_mod(x, b);
    vstd::arithmetic::div_mod::lemma_fundamental_div_mod(w + b - 1, b);
    assert(0 <= x % b < b) by (nonlinear_arith) requires b > 0;
    assert(0 <= (w + b - 1) % b < b) by (nonlinear_arith) requires b > 0;
    let q = x / b;
    let cc = (w + b - 1) / b;
    assert(q >= 0) by (nonlinear_arith) requires x >= 0, b > 0, q == x / b;
    assert(q < cc) by (nonlinear_arith)
        requires
            x == b * q + x % b,
            w + b - 1 == b * cc + (w + b - 1) % b,
            0 <= x % b < b,
            0 <= (w + b - 1) % b < b,
            x < w,
            b > 0;
}

/// Reading back the words written for the uncovered cells gives the cells.
proof fn lemma_bits_round_trip(c: Set<(usize, usize)>, w: int, h: int, rest: Seq<usize>)
    requires
        w >= 1,
        h >= 1,
        w * h <= usize::MAX,
        forall|p: (usize, usize)| #[trigger] c.contains(p) ==> p.0 < w && p.1 < h,
    ensures
        bits_set(clicked_words(c, w, h) + rest, w, h) == c,
{
    let b = word_bits();
    let cc = chunk_count(w);
    let words = clicked_words(c, w, h) + rest;
    assert forall|p: (usize, usize)| bits_set(words, w, h).contains(p) <==> c.contains(p) by {
        if p.0 < w && p.1 < h {
            lemma_chunk_index(p.0 as int, w);
            let j = (p.0 as int) / b;
            let i = (p.0 as int) % b;
            let k = p.1 * cc + j;
            let y = p.1 as int;
            assert((y + 1) * cc <= h * cc) by (nonlinear_arith)
                requires y + 1 <= h, cc >= 0;
            assert((y + 1) * cc == y * cc + cc) by (nonlinear_arith);
            assert(k < h * cc);
            vstd::arithmetic::div_mod::lemma_fundamental_div_mod_converse(k, cc, p.1 as int, j);
            assert(words[k] == clicked_words(c, w, h)[k]);
            assert(words[k] == word_of(c, p.1, j * b, chunk_len(w, j) as nat));
            assert(j * b + chunk_len(w, j) <= w);
            lemma_word_bits(c, p.1, j * b, chunk_len(w, j) as nat, i);
            assert((j * b + i) as usize == p.0);
        }
    }
    assert(bits_set(words, w, h) =~= c);
}

/// Every cell of `s` lies on a `w` by `h` board.
pub open spec fn on_board(s: Set<(usize, usize)>, w: int, h: int) -> bool {
    forall|p: (usize, usize)| #[trigger] s.contains(p) ==> p.0 < w && p.1 < h
}

/// A state that the save format holds without loss: a board of width two or
/// more whose size fits, cells on the board, nothing flagged or uncovered
/// before the mines are placed, not every cell a mine (nor meant to be), and
/// a count of numbers to write that fits.
pub open spec fn savable(d: Data) -> bool {
    &&& d.flagged.inv()
    &&& d.clicked.inv()
    &&& d.mines.inv()
    &&& d.width >= 2
    &&& d.height >= 1
    &&& d.width * d.height <= usize::MAX
    &&& on_board(d.flagged@, d.width as int, d.height as int)
    &&& on_board(d.clicked@, d.width as int, d.height as int)
    &&& on_board(d.mines@, d.width as int, d.height as int)
    &&& d.mines@.len() == 0 ==> d.flagged@.len() == 0 && d.clicked@.len() == 0
        && d.number_of_mines <= d.width * d.height - 1
    &&& d.mines@.len() > 0 ==> d.mines@.len() <= d.width * d.height - 1
    &&& d.flagged@.len() + saved_clicked(d).len() + d.mines@.len() <= usize::MAX
}

/// The row-major index of a cell on the board fits.
proof fn lemma_on_board_fits(s: Set<(usize, usize)>, w: int, h: int)
    requires
        w >= 1,
        w * h <= usize::MAX,
        on_board(s, w, h),
    ensures
        crate::save::indices_fit(s, w),
{
    assert forall|p: (usize, usize)| #[trigger] s.contains(p) implies spec_coords_to_index(p, w) <= usize::MAX by {
        let y = p.1 as int;
        assert(y * w + w <= h * w) by (nonlinear_arith) requires y + 1 <= h, w >= 0;
        assert(h * w == w * h) by (nonlinear_arith);
    }
}

/// Reading back the indices of a set of cells on the board gives the set.
proof fn lemma_set_round_trip(s: crate::pos_set::PosSet, w: int, h: int)
    requires
        s.inv(),
        w >= 1,
        w * h <= usize::MAX,
        on_board(s@, w, h),
    ensures
        coords_set(indices_of(s.elems(), w), w) == s@,
        indices_of(s.elems(), w).len() == s@.len(),
{
    s.lemma_size();
    lemma_on_board_fits(s@, w, h);
    assert forall|i: int| 0 <= i < s.elems().len() implies (#[trigger] s.elems()[i]).0 < w
        && spec_coords_to_index(s.elems()[i], w) <= usize::MAX by {
        assert(s@.contains(s.elems()[i]));
    }
    lemma_coords_of_indices(s.elems(), w);
}

/// A saved game reads back as the same game: the same size, flags,
/// uncovered cells and mines, and as the number of mines the intended one
/// before they are placed and how many there are after.
#[verifier::rlimit(50)]
#[verifier::spinoff_prover]
pub proof fn law_save_round_trip(d: Data)
    requires
        savable(d),
    ensures
        save_fits(d),
        read_fits(save_text(d)),
        read_data(save_text(d)) == (DataRead::Parsed {
            width: d.width,
            height: d.height,
            number_of_mines: if d.mines@.len() == 0 {
                d.number_of_mines
            } else {
                d.mines@.len() as usize
            },
            flagged: d.flagged@,
            clicked: d.clicked@,
            mines: d.mines@,
        }),
{
    let w = d.width as int;
    let h = d.height as int;
    lemma_on_board_fits(d.flagged@, w, h);
    lemma_on_board_fits(d.clicked@, w, h);
    lemma_on_board_fits(d.mines@, w, h);
    lemma_set_round_trip(d.flagged, w, h);
    lemma_set_round_trip(d.clicked, w, h);
    lemma_set_round_trip(d.mines, w, h);
    let m = save_method(d);
    let ns = saved_numbers(d);
    let txt = save_text(d);
    let cl = saved_clicked(d);
    let fi = indices_of(d.flagged.elems(), w);
    let mi = indices_of(d.mines.elems(), w);
    let nm = if d.mines@.len() == 0 { d.number_of_mines } else { d.mines@.len() as usize };
    assert(txt.drop_first() =~= encode_numbers(ns));
    assert(method_of_letter(txt[0]) == Some(m));
    lemma_values_encode(ns);
    let toks = tokens(encode_numbers(ns));
    assert(ns.len() >= 5);
    assert(ns.take(5) =~= seq![d.width, d.height, d.flagged@.len() as usize, cl.len() as usize, nm]);
    assert(header(txt) == ns.take(5));
    let body = toks.skip(5);
    let a: int = fi.len() as int;
    let b: int = cl.len() as int;
    let c: int = mi.len() as int;
    let total: int = a + b + c;
    let nums = ns.skip(5);
    assert(nums =~= fi + cl + mi);
    assert(body.len() == total);
    assert(tokens_ok(body, total)) by {
        assert(tokens_ok(toks, 5 + total));
        assert forall|j: int| 0 <= j < total implies (#[trigger] token_value(body[j])) is Some by {
            assert(body[j] == toks[5 + j]);
        }
    }
    assert(token_values(body, total) =~= nums) by {
        assert(token_values(toks, 5 + total) == ns.take(5 + total));
        assert(ns.take(5 + total) =~= ns);
        assert forall|j: int| 0 <= j < total implies token_values(body, total)[j] == nums[j] by {
            assert(body[j] == toks[5 + j]);
        }
    }
    assert(take_count(total, body.len() as int) == total);
    if m == DataContainmentMethod::NoData {
        assert(d.flagged@ =~= Set::<(usize, usize)>::empty());
        assert(d.clicked@ =~= Set::<(usize, usize)>::empty());
        assert(d.mines@ =~= Set::<(usize, usize)>::empty());
    } else {
        assert(nums.subrange(0, a) =~= fi);
        if m == DataContainmentMethod::Indices {
            assert(nums.subrange(a, a + b) =~= cl);
        } else {
            assert(cl == clicked_words(d.clicked@, w, h));
            assert(nums.skip(a) =~= cl + mi);
            lemma_bits_round_trip(d.clicked@, w, h, mi);
            assert(cl.len() == h * chunk_count(w));
        }
        assert(nums.subrange(a + b, a + b + c) =~= mi);
    }
}

} // verus!
