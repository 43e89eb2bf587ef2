//! Character-level helpers: copying between `str`/`String` and character
//! vectors, splitting on a separator, splitting into lines, comparing, and
//! writing integers in decimal.
use vstd::prelude::*;

verus! {

/// Copies the characters of `s` into a vector.
pub fn str_chars(s: &str) -> (v: Vec<char>)
    ensures
        v@ == s@,
{
    let mut v: Vec<char> = Vec::new();
    for c in it: s.chars()
        invariant
            it.seq() == s@,
            v@ == s@.take(it.index() as int),
    {
        v.push(c);
    }
    v
}

/// Appends one character to a string; `String::push`.
#[verifier::external_body]
pub(crate) fn push_char(s: &mut String, c: char)
    ensures
        final(s)@ == old(s)@.push(c),
{
    s.push(c);
}

/// Builds a string holding the characters of `v`.
pub fn chars_to_string(v: &[char]) -> (s: String)
    ensures
        s@ == v@,
{
    let mut s = String::new();
    let mut i: usize = 0;
    while i < v.len()
        invariant
            i <= v@.len(),
            s@ == v@.take(i as int),
        decreases v@.len() - i,
    {
        push_char(&mut s, v[i]);
        i = i + 1;
        proof {
            assert(v@.take(i as int) == v@.take(i - 1).push(v@[i - 1]));
        }
    }
    proof {
        assert(v@.take(v@.len() as int) == v@);
    }
    s
}

/// Whether two character sequences are equal, element by element.
pub fn chars_equal(a: &[char], b: &[char]) -> (r: bool)
    ensures
        r == (a@ == b@),
{
    if a.len() != b.len() {
        return false;
    }
    let mut i: usize = 0;
    while i < a.len()
        invariant
            a@.len() == b@.len(),
            i <= a@.len(),
            forall|j: int| 0 <= j < i ==> a@[j] == b@[j],
        decreases a@.len() - i,
    {
        if a[i] != b[i] {
            return false;
        }
        i = i + 1;
    }
    proof {
        assert(a@ =~= b@);
    }
    true
}

/// Whether the characters in `a` spell the string `b`.
pub fn chars_equal_str(a: &[char], b: &str) -> (r: bool)
    ensures
        r == (a@ == b@),
{
    let bv = str_chars(b);
    chars_equal(a, bv.as_slice())
}

/// The pieces of `s` between occurrences of `sep`, empty pieces included, as
/// `str::split` with a character pattern yields them: there is always at least
/// one piece, and a separator at either end gives an empty piece there.
pub open spec fn split_spec(s: Seq<char>, sep: char) -> Seq<Seq<char>>
    decreases s.len(),
{
    if s.len() == 0 {
        seq![Seq::<char>::empty()]
    } else {
        let prev = split_spec(s.drop_last(), sep);
        if s.last() == sep {
            prev.push(Seq::<char>::empty())
        } else {
            prev.update(prev.len() - 1, prev.last().push(s.last()))
        }
    }
}

/// `split_spec` always yields at least one piece.
pub proof fn lemma_split_nonempty(s: Seq<char>, sep: char)
    ensures
        split_spec(s, sep).len() >= 1,
    decreases s.len(),
{
    if s.len() > 0 {
        lemma_split_nonempty(s.drop_last(), sep);
    }
}

/// The pieces put back together with `sep` between neighbours.
pub open spec fn join_spec(pieces: Seq<Seq<char>>, sep: char) -> Seq<char>
    decreases pieces.len(),
{
    if pieces.len() <= 1 {
        if pieces.len() == 1 {
            pieces[0]
        } else {
            Seq::empty()
        }
    } else {
        join_spec(pieces.drop_last(), sep) + seq![sep] + pieces.last()
    }
}

/// Splitting loses nothing and keeps the separator out of the pieces:
/// joining the pieces with the separator gives back the text, and no piece
/// holds the separator.
pub proof fn lemma_split_join(s: Seq<char>, sep: char)
    ensures
        join_spec(split_spec(s, sep), sep) == s,
        forall|i: int|
            0 <= i < split_spec(s, sep).len() ==> !(#[trigger] split_spec(s, sep)[i]).contains(sep),
    decreases s.len(),
{
    if s.len() == 0 {
        assert(join_spec(split_spec(s, sep), sep) =~= s);
        assert(split_spec(s, sep)[0] =~= Seq::<char>::empty());
    } else {
        let t = s.drop_last();
        let x = s.last();
        lemma_split_join(t, sep);
        lemma_split_nonempty(t, sep);
        let prev = split_spec(t, sep);
        let cur = split_spec(s, sep);
        if x == sep {
            assert(cur.drop_last() == prev);
            assert(join_spec(cur, sep) =~= s);
            assert forall|i: int| 0 <= i < cur.len() implies !(#[trigger] cur[i]).contains(sep) by {
                if i < prev.len() {
                    assert(cur[i] == prev[i]);
                }
            }
        } else {
            let last = prev.last();
            assert(cur.drop_last() == prev.drop_last());
            assert(cur.last() == last.push(x));
            if prev.len() == 1 {
                assert(join_spec(prev, sep) == last);
                assert(join_spec(cur, sep) =~= s);
            } else {
                assert(join_spec(cur, sep) =~= join_spec(prev.drop_last(), sep) + seq![sep] + last.push(x));
                assert(join_spec(prev, sep) == join_spec(prev.drop_last(), sep) + seq![sep] + last);
                assert(t == join_spec(prev.drop_last(), sep) + seq![sep] + last);
                assert(join_spec(cur, sep) =~= t.push(x));
                assert(t.push(x) =~= s);
            }
            assert forall|i: int| 0 <= i < cur.len() implies !(#[trigger] cur[i]).contains(sep) by {
                if i < prev.len() - 1 {
                    assert(cur[i] == prev[i]);
                } else {
                    assert(!prev[prev.len() - 1].contains(sep));
                    if cur[i].contains(sep) {
                        let j = choose|j: int| 0 <= j < cur[i].len() && cur[i][j] == sep;
                        if j < last.len() {
                            assert(last[j] == sep);
                        }
                    }
                }
            }
        }
    }
}

/// Splits `s` at every occurrence of `sep`.
pub fn split_chars(s: &[char], sep: char) -> (pieces: Vec<Vec<char>>)
    ensures
        rows(pieces@) == split_spec(s@, sep),
{
    let mut pieces: Vec<Vec<char>> = Vec::new();
    let mut cur: Vec<char> = Vec::new();
    let mut i: usize = 0;
    while i < s.len()
        invariant
            i <= s@.len(),
            rows(pieces@).push(cur@) == split_spec(s@.take(i as int), sep),
        decreases s@.len() - i,
    {
        let ghost before = rows(pieces@).push(cur@);
        proof {
            assert(s@.take(i + 1).drop_last() == s@.take(i as int));
        }
        if s[i] == sep {
            let done = cur;
            pieces.push(done);
            cur = Vec::new();
            proof {
                assert(rows(pieces@) =~= before);
                assert(rows(pieces@).push(cur@) =~= before.push(Seq::<char>::empty()));
            }
        } else {
            cur.push(s[i]);
            proof {
                assert(rows(pieces@).push(cur@) =~= before.update(
                    before.len() - 1,
                    before.last().push(s@[i as int]),
                ));
            }
        }
        i = i + 1;
    }
    pieces.push(cur);
    proof {
        assert(s@.take(s@.len() as int) == s@);
    }
    pieces
}

/// The character sequences held by a vector of character vectors.
pub open spec fn rows(v: Seq<Vec<char>>) -> Seq<Seq<char>> {
    v.map_values(|x: Vec<char>| x@)
}

/// Drops one carriage return at the end of `line`, if there is one.
pub open spec fn strip_cr(line: Seq<char>) -> Seq<char> {
    if line.len() > 0 && line.last() == '\r' {
        line.drop_last()
    } else {
        line
    }
}

/// The lines of `s` as `str::lines` yields them: `s` is split at each `'\n'`;
/// a line that was ended by `'\n'` loses one `'\r'` before it; a last line that
/// is empty (the text is empty or ends with `'\n'`) is not a line.
pub open spec fn lines_spec(s: Seq<char>) -> Seq<Seq<char>> {
    let pieces = split_spec(s, '\n');
    let ended = pieces.drop_last().map_values(|p: Seq<char>| strip_cr(p));
    if pieces.last().len() == 0 {
        ended
    } else {
        ended.push(pieces.last())
    }
}

/// No line holds a line feed, and the text has a line for each line feed
/// in it, plus one for a last line that does not end with one.
pub proof fn lemma_lines_split_at_line_feeds(s: Seq<char>)
    ensures
        forall|i: int| 0 <= i < lines_spec(s).len() ==> !(#[trigger] lines_spec(s)[i]).contains('\n'),
        lines_spec(s).len() == split_spec(s, '\n').len() - if s.len() == 0 || s.last() == '\n' {
            1int
        } else {
            0int
        },
{
    lemma_split_join(s, '\n');
    lemma_split_nonempty(s, '\n');
    let pieces = split_spec(s, '\n');
    let ls = lines_spec(s);
    assert forall|i: int| 0 <= i < ls.len() implies !(#[trigger] ls[i]).contains('\n') by {
        if i < pieces.len() - 1 {
            assert(!pieces[i].contains('\n'));
            if ls[i].contains('\n') {
                let k = choose|k: int| 0 <= k < ls[i].len() && ls[i][k] == '\n';
                assert(pieces[i][k] == '\n');
            }
        } else {
            assert(ls[i] == pieces.last());
        }
    }
    lemma_split_last_empty(s);
}

/// The last piece of a split at line feeds is empty exactly where the text
/// is empty or ends with a line feed.
proof fn lemma_split_last_empty(s: Seq<char>)
    ensures
        split_spec(s, '\n').len() >= 1,
        split_spec(s, '\n').last().len() == 0 <==> (s.len() == 0 || s.last() == '\n'),
{
    lemma_split_nonempty(s, '\n');
    if s.len() > 0 {
        lemma_split_nonempty(s.drop_last(), '\n');
    }
}

/// The lines of the text `s`.
pub fn text_lines(s: &[char]) -> (lines: Vec<Vec<char>>)
    ensures
        rows(lines@) == lines_spec(s@),
{
    let pieces = split_chars(s, '\n');
    proof {
        lemma_split_nonempty(s@, '\n');
    }
    let ghost pv = rows(pieces@);
    let n = pieces.len();
    let mut lines: Vec<Vec<char>> = Vec::new();
    let mut i: usize = 0;
    while i + 1 < n
        invariant
            n == pieces@.len(),
            n >= 1,
            pv == rows(pieces@),
            i < n,
            rows(lines@) == pv.take(i as int).map_values(|p: Seq<char>| strip_cr(p)),
        decreases n - i,
    {
        let piece = &pieces[i];
        let mut line: Vec<char> = piece.clone();
        let len = line.len();
        if len > 0 && line[len - 1] == '\r' {
            line.pop();
        }
        proof {
            assert(piece@ == pv[i as int]);
            assert(line@ == strip_cr(pv[i as int]));
        }
        let ghost before = rows(lines@);
        lines.push(line);
        proof {
            assert(rows(lines@) =~= before.push(strip_cr(pv[i as int])));
            assert(pv.take(i + 1).map_values(|p: Seq<char>| strip_cr(p)) =~= pv.take(
                i as int,
            ).map_values(|p: Seq<char>| strip_cr(p)).push(strip_cr(pv[i as int])));
        }
        i = i + 1;
    }
    proof {
        assert(pv.take(i as int) == pv.drop_last());
    }
    let last = &pieces[n - 1];
    if last.len() > 0 {
        let ghost before = rows(lines@);
        lines.push(last.clone());
        proof {
            assert(rows(lines@) =~= before.push(pv.last()));
        }
    }
    lines
}

/// The character of a decimal digit.
pub open spec fn digit_char(d: nat) -> char {
    seq!['0', '1', '2', '3', '4', '5', '6', '7', '8', '9'][d as int]
}

/// The decimal numeral of `n`, without leading zeros.
pub open spec fn decimal(n: nat) -> Seq<char>
    decreases n,
{
    if n < 10 {
        seq![digit_char(n)]
    } else {
        decimal(n / 10).push(digit_char(n % 10))
    }
}

/// The number a numeral of decimal digits stands for.
pub open spec fn numeral_value(s: Seq<char>) -> int
    decreases s.len(),
{
    if s.len() == 0 {
        0
    } else {
        numeral_value(s.drop_last()) * 10 + (s.last() as int - '0' as int)
    }
}

proof fn lemma_digit_char(d: nat)
    requires
        d < 10,
    ensures
        digit_char(d) as int - '0' as int == d,
        '0' <= digit_char(d) <= '9',
{
    let ds = seq!['0', '1', '2', '3', '4', '5', '6', '7', '8', '9'];
    assert(ds[0] == '0' && ds[1] == '1' && ds[2] == '2' && ds[3] == '3' && ds[4] == '4');
    assert(ds[5] == '5' && ds[6] == '6' && ds[7] == '7' && ds[8] == '8' && ds[9] == '9');
}

/// The decimal numeral of `n` consists of digits, stands for `n`, and has no
/// leading zero unless it is the numeral of zero.
pub proof fn lemma_decimal_value(n: nat)
    ensures
        numeral_value(decimal(n)) == n,
        decimal(n).len() >= 1,
        forall|i: int| 0 <= i < decimal(n).len() ==> '0' <= #[trigger] decimal(n)[i] <= '9',
        decimal(n)[0] == '0' ==> n == 0,
    decreases n,
{
    lemma_digit_char(n % 10);
    if n < 10 {
        assert(n % 10 == n);
        assert(decimal(n).drop_last() =~= Seq::<char>::empty());
        assert(numeral_value(Seq::<char>::empty()) == 0);
        assert(numeral_value(decimal(n)) == numeral_value(decimal(n).drop_last()) * 10 + (
        decimal(n).last() as int - '0' as int));
    }
    if n >= 10 {
        lemma_decimal_value(n / 10);
        assert((n / 10) * 10 + n % 10 == n) by (nonlinear_arith);
        let p = decimal(n / 10);
        assert(decimal(n).drop_last() == p);
        assert forall|i: int| 0 <= i < decimal(n).len() implies '0' <= #[trigger] decimal(n)[i]
            <= '9' by {
            if i < p.len() {
                assert(decimal(n)[i] == p[i]);
            }
        }
        assert(decimal(n)[0] == p[0]);
        assert(numeral_value(decimal(n)) == numeral_value(p) * 10 + (digit_char(n % 10) as int
            - '0' as int));
    }
}

fn digit(d: u128) -> (c: char)
    requires
        d < 10,
    ensures
        c == digit_char(d as nat),
{
    match d {
        0 => '0',
        1 => '1',
        2 => '2',
        3 => '3',
        4 => '4',
        5 => '5',
        6 => '6',
        7 => '7',
        8 => '8',
        _ => '9',
    }
}

/// Appends the decimal numeral of `n` to `out`.
pub fn push_decimal(out: &mut String, n: u128)
    ensures
        final(out)@ == old(out)@ + decimal(n as nat),
    decreases n,
{
    if n >= 10 {
        push_decimal(out, n / 10);
    }
    push_char(out, digit(n % 10));
    proof {
        if n >= 10 {
            assert(decimal(n as nat) == decimal((n / 10) as nat).push(digit_char((n % 10) as nat)));
        }
    }
}

} // verus!
