//! Parsers for the text that the external wallet and token utilities print.
//! Each utility announces what it made on a marker line: the wallet generator
//! prints the key on the line holding `pubkey`, the token tool prints
//! `Creating token <address>` and `Creating account <address>`. The parsers
//! find the first line holding the marker and pick a whitespace-separated
//! word from it; a missing marker or a too-short line is an explicit error,
//! never an empty address.

use vstd::prelude::*;

verus! {

/// Why a command's output yielded no address.
#[derive(Clone, Copy, Debug, PartialEq, Eq, Structural)]
pub enum ParseError {
    /// No line of the output holds the expected marker.
    MarkerNotFound,
    /// The marker line is there but the expected word is not.
    AddressMissing,
}

/// ASCII whitespace that separates words within a line.
pub open spec fn is_space(b: u8) -> bool {
    b == 32 || b == 9 || b == 13 || b == 11 || b == 12
}

/// The first position at or after `i` that ends the line: a newline or the
/// end of the bytes.
pub open spec fn line_end(s: Seq<u8>, i: int) -> int
    decreases s.len() - i,
{
    if i < 0 || i >= s.len() || s[i] == 10u8 {
        i
    } else {
        line_end(s, i + 1)
    }
}

/// The first position at or after `i` that ends a word: a whitespace byte or
/// the end of the line's bytes.
pub open spec fn word_end(s: Seq<u8>, i: int) -> int
    decreases s.len() - i,
{
    if i < 0 || i >= s.len() || is_space(s[i]) {
        i
    } else {
        word_end(s, i + 1)
    }
}

/// Both end scanners stay between their start and the end of the bytes.
proof fn lemma_end_bounds(s: Seq<u8>, i: int)
    requires
        0 <= i <= s.len(),
    ensures
        i <= line_end(s, i) <= s.len(),
        i <= word_end(s, i) <= s.len(),
    decreases s.len() - i,
{
    if i < s.len() {
        lemma_end_bounds(s, i + 1);
    }
}

/// The lines of the output from position `i` on, newlines dropped; a last
/// line without a terminator still counts.
pub open spec fn lines_from(s: Seq<u8>, i: int) -> Seq<Seq<u8>>
    decreases s.len() - i
        via lines_from_dec
{
    if i < 0 || i >= s.len() {
        Seq::empty()
    } else {
        let e = line_end(s, i);
        if e >= s.len() - 1 {
            seq![s.subrange(i, e)]
        } else {
            seq![s.subrange(i, e)] + lines_from(s, e + 1)
        }
    }
}

#[via_fn]
proof fn lines_from_dec(s: Seq<u8>, i: int) {
    if 0 <= i < s.len() {
        lemma_end_bounds(s, i);
    }
}

/// The lines of a command's output.
pub open spec fn out_lines(s: Seq<u8>) -> Seq<Seq<u8>> {
    lines_from(s, 0)
}

/// The whitespace-separated words of a line from position `i` on.
pub open spec fn words_from(s: Seq<u8>, i: int) -> Seq<Seq<u8>>
    decreases s.len() - i
        via words_from_dec
{
    if i < 0 || i >= s.len() {
        Seq::empty()
    } else if is_space(s[i]) {
        words_from(s, i + 1)
    } else {
        seq![s.subrange(i, word_end(s, i))] + words_from(s, word_end(s, i))
    }
}

#[via_fn]
proof fn words_from_dec(s: Seq<u8>, i: int) {
    if 0 <= i < s.len() && !is_space(s[i]) {
        lemma_end_bounds(s, i + 1);
    }
}

/// The whitespace-separated words of a line.
pub open spec fn words(s: Seq<u8>) -> Seq<Seq<u8>> {
    words_from(s, 0)
}

/// The marker is the bytes `m` standing at position `i` of `s`.
pub open spec fn contains_at(s: Seq<u8>, m: Seq<u8>, i: int) -> bool {
    0 <= i && i + m.len() <= s.len() && s.subrange(i, i + m.len()) == m
}

/// The marker stands somewhere in `s`.
pub open spec fn contains_seq(s: Seq<u8>, m: Seq<u8>) -> bool {
    exists|i: int| contains_at(s, m, i)
}

/// The first line, in order, that holds the marker.
pub open spec fn first_marked(ls: Seq<Seq<u8>>, m: Seq<u8>) -> Option<Seq<u8>>
    decreases ls.len(),
{
    if ls.len() == 0 {
        Option::None
    } else if contains_seq(ls[0], m) {
        Option::Some(ls[0])
    } else {
        first_marked(ls.drop_first(), m)
    }
}

/// Scanning past unmarked lines does not change which line is found first.
proof fn lemma_first_marked_skip(ls: Seq<Seq<u8>>, m: Seq<u8>, i: int)
    requires
        0 <= i <= ls.len(),
        forall|k: int| 0 <= k < i ==> !contains_seq(#[trigger] ls[k], m),
    ensures
        first_marked(ls, m) == first_marked(ls.skip(i), m),
    decreases i,
{
    if i > 0 {
        lemma_first_marked_skip(ls, m, i - 1);
        assert(!contains_seq(ls[i - 1], m));
        assert(ls.skip(i - 1).len() > 0);
        assert(ls.skip(i - 1)[0] == ls[i - 1]);
        assert(ls.skip(i - 1).drop_first() =~= ls.skip(i));
        assert(first_marked(ls.skip(i - 1), m) == first_marked(ls.skip(i), m));
    } else {
        assert(ls.skip(0) =~= ls);
    }
}

/// The marker of the wallet generator's key line, `pubkey`.
pub open spec fn marker_pubkey() -> Seq<u8> {
    seq![112u8, 117u8, 98u8, 107u8, 101u8, 121u8]
}

/// The marker of the token tool's creation line, `Creating token`.
pub open spec fn marker_token() -> Seq<u8> {
    seq![
        67u8, 114u8, 101u8, 97u8, 116u8, 105u8, 110u8, 103u8, 32u8, 116u8, 111u8, 107u8, 101u8,
        110u8,
    ]
}

/// The marker of the token tool's account line, `Creating account`.
pub open spec fn marker_account() -> Seq<u8> {
    seq![
        67u8, 114u8, 101u8, 97u8, 116u8, 105u8, 110u8, 103u8, 32u8, 97u8, 99u8, 99u8, 111u8, 117u8,
        110u8, 116u8,
    ]
}

/// The `pubkey` marker, as a vector.
fn marker_pubkey_bytes() -> (r: Vec<u8>)
    ensures
        r@ == marker_pubkey(),
{
    let mut v: Vec<u8> = Vec::new();
    v.push(112u8);
    v.push(117u8);
    v.push(98u8);
    v.push(107u8);
    v.push(101u8);
    v.push(121u8);
    proof {
        assert(v@ =~= marker_pubkey());
    }
    v
}

/// The `Creating token` marker, as a vector.
fn marker_token_bytes() -> (r: Vec<u8>)
    ensures
        r@ == marker_token(),
{
    let mut v: Vec<u8> = Vec::new();
    v.push(67u8);
    v.push(114u8);
    v.push(101u8);
    v.push(97u8);
    v.push(116u8);
    v.push(105u8);
    v.push(110u8);
    v.push(103u8);
    v.push(32u8);
    v.push(116u8);
    v.push(111u8);
    v.push(107u8);
    v.push(101u8);
    v.push(110u8);
    proof {
        assert(v@ =~= marker_token());
    }
    v
}

/// The `Creating account` marker, as a vector.
fn marker_account_bytes() -> (r: Vec<u8>)
    ensures
        r@ == marker_account(),
{
    let mut v: Vec<u8> = Vec::new();
    v.push(67u8);
    v.push(114u8);
    v.push(101u8);
    v.push(97u8);
    v.push(116u8);
    v.push(105u8);
    v.push(110u8);
    v.push(103u8);
    v.push(32u8);
    v.push(97u8);
    v.push(99u8);
    v.push(99u8);
    v.push(111u8);
    v.push(117u8);
    v.push(110u8);
    v.push(116u8);
    proof {
        assert(v@ =~= marker_account());
    }
    v
}

/// Whether `b` separates words, as runtime code.
fn is_space_byte(b: u8) -> (r: bool)
    ensures
        r == is_space(b),
{
    b == 32 || b == 9 || b == 13 || b == 11 || b == 12
}

/// The bytes of `v` from `i` to `j`.
fn subrange_vec(v: &Vec<u8>, i: usize, j: usize) -> (r: Vec<u8>)
    requires
        i <= j <= v@.len(),
    ensures
        r@ == v@.subrange(i as int, j as int),
{
    let mut out: Vec<u8> = Vec::new();
    let mut k: usize = i;
    while k < j
        invariant
            i <= k <= j <= v@.len(),
            out@ == v@.subrange(i as int, k as int),
        decreases j - k,
    {
        out.push(v[k]);
        proof {
            assert(out@ =~= v@.subrange(i as int, k + 1));
        }
        k = k + 1;
    }
    out
}

/// True exactly when the marker stands at position `i` of the line.
fn match_at(line: &Vec<u8>, m: &Vec<u8>, i: usize) -> (r: bool)
    requires
        i <= line@.len(),
    ensures
        r == contains_at(line@, m@, i as int),
{
    if line.len() - i < m.len() {
        return false;
    }
    let mut k: usize = 0;
    while k < m.len()
        invariant
            0 <= k <= m@.len(),
            i + m@.len() <= line@.len(),
            line@.len() <= usize::MAX,
            forall|t: int| 0 <= t < k ==> line@[i + t] == m@[t],
        decreases m@.len() - k,
    {
        if line[i + k] != m[k] {
            proof {
                assert(line@.subrange(i as int, i + m@.len())[k as int] == line@[i + k]);
            }
            return false;
        }
        k = k + 1;
    }
    proof {
        assert(line@.subrange(i as int, i + m@.len()) =~= m@);
    }
    true
}

/// True exactly when the marker stands somewhere in the line.
fn contains_marker(line: &Vec<u8>, m: &Vec<u8>) -> (r: bool)
    requires
        m@.len() >= 1,
    ensures
        r == contains_seq(line@, m@),
{
    if m.len() > line.len() {
        proof {
            assert forall|i: int| !contains_at(line@, m@, i) by {}
        }
        return false;
    }
    let bound = line.len() - m.len();
    let mut i: usize = 0;
    while i <= bound
        invariant
            0 <= i <= bound + 1,
            bound == line@.len() - m@.len(),
            1 <= m@.len() <= line@.len(),
            line@.len() <= usize::MAX,
            forall|k: int| 0 <= k < i ==> !contains_at(line@, m@, k),
        decreases bound + 1 - i,
    {
        if match_at(line, m, i) {
            return true;
        }
        i = i + 1;
    }
    proof {
        assert forall|k: int| !contains_at(line@, m@, k) by {
            if 0 <= k && k + m@.len() <= line@.len() {
                assert(k < i);
            }
        }
    }
    false
}

/// Splits a command's output into its lines, newlines dropped.
fn split_lines_out(out: &Vec<u8>) -> (r: Vec<Vec<u8>>)
    ensures
        r.deep_view() == out_lines(out@),
{
    let mut acc: Vec<Vec<u8>> = Vec::new();
    let mut i: usize = 0;
    while i < out.len()
        invariant
            0 <= i <= out@.len(),
            out_lines(out@) == acc.deep_view() + lines_from(out@, i as int),
        decreases out@.len() - i,
    {
        let mut j: usize = i;
        while j < out.len() && out[j] != 10
            invariant
                i <= j <= out@.len(),
                forall|k: int| i <= k < j ==> out@[k] != 10u8,
            decreases out@.len() - j,
        {
            j = j + 1;
        }
        proof {
            lemma_line_end_of(out@, i as int, j as int);
        }
        let line = subrange_vec(out, i, j);
        let ghost prev = acc.deep_view();
        acc.push(line);
        proof {
            assert(acc.deep_view() =~~= prev.push(out@.subrange(i as int, j as int)));
            if j + 1 < out@.len() {
                assert(lines_from(out@, i as int) =~~= seq![out@.subrange(i as int, j as int)]
                    + lines_from(out@, j + 1));
                assert(acc.deep_view() + lines_from(out@, j + 1) =~~= prev + lines_from(
                    out@,
                    i as int,
                ));
            } else {
                assert(lines_from(out@, i as int) =~~= seq![out@.subrange(i as int, j as int)]);
                assert(acc.deep_view() =~~= prev + lines_from(out@, i as int));
                assert(lines_from(out@, j + 1) =~~= Seq::<Seq<u8>>::empty());
                assert(acc.deep_view() + lines_from(out@, j + 1) =~~= acc.deep_view());
            }
        }
        if j < out.len() {
            i = j + 1;
        } else {
            i = j;
        }
    }
    proof {
        assert(lines_from(out@, i as int) =~~= Seq::<Seq<u8>>::empty());
        assert(acc.deep_view() + lines_from(out@, i as int) =~~= acc.deep_view());
    }
    acc
}

/// A scan that stopped at a newline or the end found the line's end.
proof fn lemma_line_end_of(s: Seq<u8>, i: int, j: int)
    requires
        0 <= i <= j <= s.len(),
        forall|k: int| i <= k < j ==> s[k] != 10u8,
        j == s.len() || s[j] == 10u8,
    ensures
        line_end(s, i) == j,
    decreases j - i,
{
    if i < j {
        lemma_line_end_of(s, i + 1, j);
    }
}

/// A scan that stopped at whitespace or the end found the word's end.
proof fn lemma_word_end_of(s: Seq<u8>, i: int, j: int)
    requires
        0 <= i <= j <= s.len(),
        forall|k: int| i <= k < j ==> !is_space(s[k]),
        j == s.len() || is_space(s[j]),
    ensures
        word_end(s, i) == j,
    decreases j - i,
{
    if i < j {
        lemma_word_end_of(s, i + 1, j);
    }
}

/// Splits a line into its whitespace-separated words.
fn split_words(line: &Vec<u8>) -> (r: Vec<Vec<u8>>)
    ensures
        r.deep_view() == words(line@),
{
    let mut acc: Vec<Vec<u8>> = Vec::new();
    let mut i: usize = 0;
    while i < line.len()
        invariant
            0 <= i <= line@.len(),
            words(line@) == acc.deep_view() + words_from(line@, i as int),
        decreases line@.len() - i,
    {
        if is_space_byte(line[i]) {
            i = i + 1;
        } else {
            let mut j: usize = i + 1;
            while j < line.len() && !is_space_byte(line[j])
                invariant
                    i < j <= line@.len(),
                    forall|k: int| i <= k < j ==> !is_space(line@[k]),
                decreases line@.len() - j,
            {
                j = j + 1;
            }
            proof {
                lemma_word_end_of(line@, i as int, j as int);
            }
            let w = subrange_vec(line, i, j);
            let ghost prev = acc.deep_view();
            acc.push(w);
            proof {
                assert(acc.deep_view() =~~= prev.push(line@.subrange(i as int, j as int)));
                assert(words_from(line@, i as int) =~~= seq![line@.subrange(i as int, j as int)]
                    + words_from(line@, j as int));
                assert(acc.deep_view() + words_from(line@, j as int) =~~= prev + words_from(
                    line@,
                    i as int,
                ));
            }
            i = j;
        }
    }
    proof {
        assert(words_from(line@, i as int) =~~= Seq::<Seq<u8>>::empty());
        assert(acc.deep_view() + words_from(line@, i as int) =~~= acc.deep_view());
    }
    acc
}

/// Finds the first line of the output that holds the marker and splits it
/// into words; the only error is a missing marker.
fn find_marked_words(out: &Vec<u8>, m: &Vec<u8>) -> (r: Result<Vec<Vec<u8>>, ParseError>)
    requires
        m@.len() >= 1,
    ensures
        r matches Ok(ws) ==> (first_marked(out_lines(out@), m@) matches Some(l)
            && ws.deep_view() == words(l)),
        r is Err ==> r == Err::<Vec<Vec<u8>>, ParseError>(ParseError::MarkerNotFound)
            && first_marked(out_lines(out@), m@) is None,
{
    let ls = split_lines_out(out);
    let n = ls.len();
    let mut i: usize = 0;
    while i < n
        invariant
            0 <= i <= n,
            n == ls@.len(),
            m@.len() >= 1,
            ls.deep_view() == out_lines(out@),
            forall|k: int|
                0 <= k < i ==> !contains_seq(#[trigger] ls.deep_view()[k], m@),
        decreases n - i,
    {
        if contains_marker(&ls[i], m) {
            proof {
                lemma_first_marked_skip(ls.deep_view(), m@, i as int);
                assert(ls.deep_view().skip(i as int)[0] == ls.deep_view()[i as int]);
                assert(ls.deep_view()[i as int] == ls@[i as int]@);
            }
            return Ok(split_words(&ls[i]));
        }
        proof {
            assert(ls.deep_view()[i as int] == ls@[i as int]@);
        }
        i = i + 1;
    }
    proof {
        lemma_first_marked_skip(ls.deep_view(), m@, i as int);
        assert(ls.deep_view().skip(i as int) =~= Seq::<Seq<u8>>::empty());
    }
    Err(ParseError::MarkerNotFound)
}

/// Reads the wallet generator's output: the last word of the first line
/// holding the `pubkey` marker is the new wallet's public key.
pub fn parse_wallet_pubkey(out: &Vec<u8>) -> (r: Result<Vec<u8>, ParseError>)
    ensures
        ({
            let found = first_marked(out_lines(out@), marker_pubkey());
            match r {
                Ok(a) => (found matches Some(l) && words(l).len() > 0 && a@ == words(l).last()),
                Err(ParseError::MarkerNotFound) => found is None,
                Err(ParseError::AddressMissing) => (found matches Some(l) && words(l).len() == 0),
            }
        }),
{
    let m = marker_pubkey_bytes();
    let ws = match find_marked_words(out, &m) {
        Ok(ws) => ws,
        Err(e) => {
            return Err(e);
        },
    };
    if ws.len() == 0 {
        return Err(ParseError::AddressMissing);
    }
    let a = &ws[ws.len() - 1];
    proof {
        assert(ws.deep_view()[ws@.len() - 1] == ws@[ws@.len() - 1]@);
    }
    Ok(subrange_vec(a, 0, a.len()))
}

/// Reads the token tool's creation output: the third word of the first line
/// holding the `Creating token` marker is the new token's address.
pub fn parse_token_address(out: &Vec<u8>) -> (r: Result<Vec<u8>, ParseError>)
    ensures
        ({
            let found = first_marked(out_lines(out@), marker_token());
            match r {
                Ok(a) => (found matches Some(l) && words(l).len() > 2 && a@ == words(l)[2]),
                Err(ParseError::MarkerNotFound) => found is None,
                Err(ParseError::AddressMissing) => (found matches Some(l) && words(l).len() <= 2),
            }
        }),
{
    let m = marker_token_bytes();
    let ws = match find_marked_words(out, &m) {
        Ok(ws) => ws,
        Err(e) => {
            return Err(e);
        },
    };
    if ws.len() <= 2 {
        return Err(ParseError::AddressMissing);
    }
    let a = &ws[2];
    proof {
        assert(ws.deep_view()[2] == ws@[2]@);
    }
    Ok(subrange_vec(a, 0, a.len()))
}

/// Reads the token tool's account output: the third word of the first line
/// holding the `Creating account` marker is the new account's address.
pub fn parse_account_address(out: &Vec<u8>) -> (r: Result<Vec<u8>, ParseError>)
    ensures
        ({
            let found = first_marked(out_lines(out@), marker_account());
            match r {
                Ok(a) => (found matches Some(l) && words(l).len() > 2 && a@ == words(l)[2]),
                Err(ParseError::MarkerNotFound) => found is None,
                Err(ParseError::AddressMissing) => (found matches Some(l) && words(l).len() <= 2),
            }
        }),
{
    let m = marker_account_bytes();
    let ws = match find_marked_words(out, &m) {
        Ok(ws) => ws,
        Err(e) => {
            return Err(e);
        },
    };
    if ws.len() <= 2 {
        return Err(ParseError::AddressMissing);
    }
    let a = &ws[2];
    proof {
        assert(ws.deep_view()[2] == ws@[2]@);
    }
    Ok(subrange_vec(a, 0, a.len()))
}

} // verus!
