//! Text as sequences of characters: splitting into lines, joining, searching.
use vstd::prelude::*;
use vstd::slice::slice_to_vec;

verus! {

/// The pieces of `s` between newline characters; always one more than the
/// number of newlines.
pub open spec fn split_nl(s: Seq<char>) -> Seq<Seq<char>>
    decreases s.len(),
{
    if s.len() == 0 {
        seq![Seq::<char>::empty()]
    } else {
        let p = split_nl(s.drop_last());
        if s.last() == '\n' {
            p.push(Seq::<char>::empty())
        } else {
            p.update(p.len() - 1, p.last().push(s.last()))
        }
    }
}

/// A line that was ended by a newline loses one carriage return before it.
pub open spec fn strip_cr(l: Seq<char>) -> Seq<char> {
    if l.len() > 0 && l.last() == '\r' {
        l.drop_last()
    } else {
        l
    }
}

/// The lines of `s`: split at `\n` or `\r\n`; a final line ending is optional.
pub open spec fn lines_of(s: Seq<char>) -> Seq<Seq<char>> {
    let p = split_nl(s);
    let body = p.drop_last().map_values(|l: Seq<char>| strip_cr(l));
    if p.last().len() == 0 {
        body
    } else {
        body.push(p.last())
    }
}

pub proof fn lemma_split_nl_nonempty(s: Seq<char>)
    ensures
        split_nl(s).len() >= 1,
    decreases s.len(),
{
    if s.len() > 0 {
        lemma_split_nl_nonempty(s.drop_last());
    }
}

/// Relies on `Iterator::collect` over `str::chars`: the characters of `s`, in order.
#[verifier::external_body]
pub fn chars_of(s: &str) -> (r: Vec<char>)
    ensures
        r@ == s@,
{
    s.chars().collect()
}

/// Relies on `Iterator::collect` into a `String`: the string made of `v`'s characters.
#[verifier::external_body]
pub fn string_of(v: &[char]) -> (r: String)
    ensures
        r@ == v@,
{
    v.iter().collect()
}

/// Splits `s` into its pieces between newlines.
fn split_pieces(s: &[char]) -> (r: Vec<Vec<char>>)
    ensures
        r@.len() == split_nl(s@).len(),
        forall|i: int| 0 <= i < r@.len() ==> #[trigger] r@[i]@ == split_nl(s@)[i],
{
    let mut done: Vec<Vec<char>> = Vec::new();
    let mut cur: Vec<char> = Vec::new();
    let mut i: usize = 0;
    while i < s.len()
        invariant
            i <= s@.len(),
            split_nl(s@.take(i as int)).len() == done@.len() + 1,
            forall|j: int| 0 <= j < done@.len() ==> #[trigger] done@[j]@ == split_nl(s@.take(i as int))[j],
            cur@ == split_nl(s@.take(i as int)).last(),
        decreases s@.len() - i,
    {
        assert(s@.take(i as int + 1).drop_last() =~= s@.take(i as int));
        let c = s[i];
        if c == '\n' {
            done.push(cur);
            cur = Vec::new();
        } else {
            cur.push(c);
        }
        i = i + 1;
    }
    assert(s@.take(s@.len() as int) =~= s@);
    done.push(cur);
    done
}

/// The character sequences held by a sequence of character vectors.
pub open spec fn views(v: Seq<Vec<char>>) -> Seq<Seq<char>> {
    v.map_values(|x: Vec<char>| x@)
}

/// The lines of `ls` joined with a newline between neighbours.
pub open spec fn join_lines(ls: Seq<Seq<char>>) -> Seq<char>
    decreases ls.len(),
{
    if ls.len() == 0 {
        Seq::<char>::empty()
    } else if ls.len() == 1 {
        ls[0]
    } else {
        join_lines(ls.drop_last()) + seq!['\n'] + ls.last()
    }
}

/// How many times `c` occurs in `s`.
pub open spec fn count_char(s: Seq<char>, c: char) -> nat
    decreases s.len(),
{
    if s.len() == 0 {
        0
    } else {
        count_char(s.drop_last(), c) + if s.last() == c { 1nat } else { 0nat }
    }
}

/// `t` stands in `s` starting at position `i`.
pub open spec fn occurs_at(s: Seq<char>, t: Seq<char>, i: int) -> bool {
    0 <= i && i + t.len() <= s.len() && s.subrange(i, i + t.len()) == t
}

/// Where a fragment stands in a text: nowhere, at exactly one position, or at
/// two or more.
pub enum Occurrence {
    Absent,
    Unique(usize),
    Repeated,
}

/// What `find_fragment` reports, stated over positions.
pub open spec fn occurrence_spec(s: Seq<char>, t: Seq<char>, r: Occurrence) -> bool {
    match r {
        Occurrence::Absent => forall|j: int| !occurs_at(s, t, j),
        Occurrence::Unique(i) => occurs_at(s, t, i as int) && forall|j: int|
            occurs_at(s, t, j) ==> j == i,
        Occurrence::Repeated => exists|a: int, b: int|
            a != b && occurs_at(s, t, a) && occurs_at(s, t, b),
    }
}

/// The digit character for `d < 10`.
pub open spec fn digit_char(d: nat) -> char {
    if d == 0 { '0' }
    else if d == 1 { '1' }
    else if d == 2 { '2' }
    else if d == 3 { '3' }
    else if d == 4 { '4' }
    else if d == 5 { '5' }
    else if d == 6 { '6' }
    else if d == 7 { '7' }
    else if d == 8 { '8' }
    else { '9' }
}

/// The decimal notation of `n`, without leading zeros.
pub open spec fn decimal(n: nat) -> Seq<char>
    decreases n,
{
    if n < 10 {
        seq![digit_char(n)]
    } else {
        decimal(n / 10).push(digit_char(n % 10))
    }
}

/// The decimal notation of a signed number, with `-` before a negative one.
pub open spec fn signed_decimal(n: int) -> Seq<char> {
    if n < 0 {
        seq!['-'] + decimal((-n) as nat)
    } else {
        decimal(n as nat)
    }
}

/// Line-ending convention of the host.
#[derive(Clone, Copy, PartialEq, Eq, Structural, Debug)]
pub enum Platform {
    Unix,
    Windows,
}

/// Every `\r\n` of `s` replaced by `\n`, scanning from the front.
pub open spec fn crlf_to_lf(s: Seq<char>) -> Seq<char>
    decreases s.len(),
{
    if s.len() == 0 {
        s
    } else if s.len() >= 2 && s[0] == '\r' && s[1] == '\n' {
        seq!['\n'] + crlf_to_lf(s.subrange(2, s.len() as int))
    } else {
        seq![s[0]] + crlf_to_lf(s.drop_first())
    }
}

/// Every `\n` of `s` preceded by `\r`.
pub open spec fn lf_to_crlf(s: Seq<char>) -> Seq<char>
    decreases s.len(),
{
    if s.len() == 0 {
        s
    } else if s[0] == '\n' {
        seq!['\r', '\n'] + lf_to_crlf(s.drop_first())
    } else {
        seq![s[0]] + lf_to_crlf(s.drop_first())
    }
}

/// `s` with the host's line endings: `\n` on Unix, `\r\n` on Windows.
pub open spec fn normalized(s: Seq<char>, p: Platform) -> Seq<char> {
    match p {
        Platform::Unix => crlf_to_lf(s),
        Platform::Windows => lf_to_crlf(crlf_to_lf(s)),
    }
}

/// `s` followed by a newline unless it already ends with one.
pub open spec fn with_final_newline(s: Seq<char>) -> Seq<char> {
    if s.len() > 0 && s.last() == '\n' {
        s
    } else {
        s.push('\n')
    }
}

/// Splits `s` into lines as `lines_of` describes.
pub fn split_lines(s: &[char]) -> (r: Vec<Vec<char>>)
    ensures
        views(r@) == lines_of(s@),
{
    let mut pieces = split_pieces(s);
    proof {
        lemma_split_nl_nonempty(s@);
    }
    let ghost p = split_nl(s@);
    let n = pieces.len();
    let last = pieces.pop().unwrap();
    let mut out: Vec<Vec<char>> = Vec::new();
    let mut i: usize = 0;
    while i + 1 < n
        invariant
            n == p.len(),
            n >= 1,
            i + 1 <= n,
            pieces@.len() == n - 1,
            forall|j: int| 0 <= j < n - 1 ==> #[trigger] pieces@[j]@ == p[j],
            last@ == p.last(),
            views(out@) =~= p.drop_last().take(i as int).map_values(|l: Seq<char>| strip_cr(l)),
        decreases n - i,
    {
        let mut line = slice_to_vec(pieces[i].as_slice());
        let k = line.len();
        if k > 0 && line[k - 1] == '\r' {
            line.pop();
        }
        assert(line@ =~= strip_cr(p[i as int]));
        let ghost before = out@;
        out.push(line);
        proof {
            assert(views(out@) =~= views(before).push(strip_cr(p[i as int])));
            assert(p.drop_last().take(i + 1) =~= p.drop_last().take(i as int).push(p[i as int]));
        }
        i = i + 1;
    }
    assert(p.drop_last().take(i as int) =~= p.drop_last());
    if last.len() > 0 {
        out.push(last);
        assert(views(out@) =~= lines_of(s@));
    }
    out
}

/// Joins `lines` with a newline between neighbours.
pub fn join(lines: &[Vec<char>]) -> (r: Vec<char>)
    ensures
        r@ == join_lines(views(lines@)),
{
    let mut out: Vec<char> = Vec::new();
    let mut i: usize = 0;
    while i < lines.len()
        invariant
            i <= lines@.len(),
            out@ == join_lines(views(lines@).take(i as int)),
        decreases lines@.len() - i,
    {
        let mut piece = slice_to_vec(lines[i].as_slice());
        if i > 0 {
            out.push('\n');
        }
        out.append(&mut piece);
        proof {
            let t = views(lines@).take(i + 1);
            assert(t.drop_last() =~= views(lines@).take(i as int));
            if i == 0 {
                assert(join_lines(views(lines@).take(0)) =~= Seq::<char>::empty());
                assert(out@ =~= join_lines(t));
            }
        }
        i = i + 1;
    }
    assert(views(lines@).take(i as int) =~= views(lines@));
    out
}

/// Counts the newline characters of `s`.
pub fn count_newlines(s: &[char]) -> (r: usize)
    ensures
        r == count_char(s@, '\n'),
{
    let mut n: usize = 0;
    let mut i: usize = 0;
    while i < s.len()
        invariant
            i <= s@.len(),
            n == count_char(s@.take(i as int), '\n'),
            n <= i,
        decreases s@.len() - i,
    {
        assert(s@.take(i + 1).drop_last() =~= s@.take(i as int));
        if s[i] == '\n' {
            n = n + 1;
        }
        i = i + 1;
    }
    assert(s@.take(i as int) =~= s@);
    n
}

/// Whether `t` stands in `s` at position `i`.
pub fn occurs_at_exec(s: &[char], t: &[char], i: usize) -> (r: bool)
    requires
        i <= s@.len(),
    ensures
        r == occurs_at(s@, t@, i as int),
{
    let n = s.len();
    if t.len() > n - i {
        return false;
    }
    let mut k: usize = 0;
    while k < t.len()
        invariant
            n == s@.len(),
            i + t@.len() <= n,
            k <= t@.len(),
            forall|j: int| 0 <= j < k ==> s@[i + j] == t@[j],
        decreases t@.len() - k,
    {
        if s[i + k] != t[k] {
            assert(s@.subrange(i as int, i + t@.len())[k as int] != t@[k as int]);
            return false;
        }
        k = k + 1;
    }
    assert(s@.subrange(i as int, i + t@.len()) =~= t@);
    true
}

/// Finds where `t` stands in `s`, counting overlapping positions.
pub fn find_fragment(s: &[char], t: &[char]) -> (r: Occurrence)
    ensures
        occurrence_spec(s@, t@, r),
{
    let n = s.len();
    let mut found: Option<usize> = None;
    let mut i: usize = 0;
    while i < n
        invariant
            n == s@.len(),
            i <= n,
            match found {
                None => forall|j: int| j < i ==> !occurs_at(s@, t@, j),
                Some(f) => f < i && occurs_at(s@, t@, f as int) && forall|j: int|
                    j < i && occurs_at(s@, t@, j) ==> j == f,
            },
        decreases s@.len() + 1 - i,
    {
        if occurs_at_exec(s, t, i) {
            match found {
                None => {
                    found = Some(i);
                },
                Some(f) => {
                    assert(occurs_at(s@, t@, f as int) && occurs_at(s@, t@, i as int));
                    return Occurrence::Repeated;
                },
            }
        }
        i = i + 1;
    }
    if occurs_at_exec(s, t, n) {
        match found {
            None => {
                found = Some(n);
            },
            Some(f) => {
                assert(occurs_at(s@, t@, f as int) && occurs_at(s@, t@, n as int));
                return Occurrence::Repeated;
            },
        }
    }
    assert forall|j: int| j > n implies !occurs_at(s@, t@, j) by {}
    match found {
        None => Occurrence::Absent,
        Some(f) => Occurrence::Unique(f),
    }
}

/// Appends the characters of `s` to `v`.
pub fn push_str(v: &mut Vec<char>, s: &str)
    ensures
        final(v)@ == old(v)@ + s@,
{
    let mut w = chars_of(s);
    v.append(&mut w);
}

/// Appends the decimal notation of `n` to `v`.
pub fn push_decimal(v: &mut Vec<char>, n: u64)
    ensures
        final(v)@ == old(v)@ + decimal(n as nat),
    decreases n,
{
    if n >= 10 {
        push_decimal(v, n / 10);
    }
    let d = n % 10;
    let c = if d == 0 { '0' }
        else if d == 1 { '1' }
        else if d == 2 { '2' }
        else if d == 3 { '3' }
        else if d == 4 { '4' }
        else if d == 5 { '5' }
        else if d == 6 { '6' }
        else if d == 7 { '7' }
        else if d == 8 { '8' }
        else { '9' };
    v.push(c);
}

/// Appends the decimal notation of the signed `n` to `v`.
pub fn push_signed(v: &mut Vec<char>, n: i64)
    ensures
        final(v)@ == old(v)@ + signed_decimal(n as int),
{
    if n < 0 {
        v.push('-');
        let m = (0i128 - n as i128) as u64;
        push_decimal(v, m);
    } else {
        push_decimal(v, n as u64);
    }
}

/// `s` with every `\r\n` replaced by `\n`.
fn crlf_to_lf_exec(s: &[char]) -> (r: Vec<char>)
    ensures
        r@ == crlf_to_lf(s@),
{
    let mut out: Vec<char> = Vec::new();
    let mut i: usize = 0;
    assert(s@.subrange(0, s@.len() as int) =~= s@);
    assert(out@ + crlf_to_lf(s@) =~= crlf_to_lf(s@));
    while i < s.len()
        invariant
            i <= s@.len(),
            out@ + crlf_to_lf(s@.subrange(i as int, s@.len() as int)) == crlf_to_lf(s@),
        decreases s@.len() - i,
    {
        let ghost rest = s@.subrange(i as int, s@.len() as int);
        if i + 1 < s.len() && s[i] == '\r' && s[i + 1] == '\n' {
            assert(rest.subrange(2, rest.len() as int) =~= s@.subrange(i + 2, s@.len() as int));
            assert(out@.push('\n') + crlf_to_lf(rest.subrange(2, rest.len() as int)) =~= out@ + crlf_to_lf(rest));
            out.push('\n');
            i = i + 2;
        } else {
            assert(rest.drop_first() =~= s@.subrange(i + 1, s@.len() as int));
            assert(out@.push(s@[i as int]) + crlf_to_lf(rest.drop_first()) =~= out@ + crlf_to_lf(rest));
            out.push(s[i]);
            i = i + 1;
        }
    }
    assert(out@ + crlf_to_lf(s@.subrange(i as int, s@.len() as int)) =~= out@);
    out
}

/// `s` with `\r` put before every `\n`.
fn lf_to_crlf_exec(s: &[char]) -> (r: Vec<char>)
    ensures
        r@ == lf_to_crlf(s@),
{
    let mut out: Vec<char> = Vec::new();
    let mut i: usize = 0;
    assert(s@.subrange(0, s@.len() as int) =~= s@);
    assert(out@ + lf_to_crlf(s@) =~= lf_to_crlf(s@));
    while i < s.len()
        invariant
            i <= s@.len(),
            out@ + lf_to_crlf(s@.subrange(i as int, s@.len() as int)) == lf_to_crlf(s@),
        decreases s@.len() - i,
    {
        let ghost rest = s@.subrange(i as int, s@.len() as int);
        assert(rest.drop_first() =~= s@.subrange(i + 1, s@.len() as int));
        if s[i] == '\n' {
            assert(out@.push('\r').push('\n') + lf_to_crlf(rest.drop_first()) =~= out@ + lf_to_crlf(rest));
            out.push('\r');
            out.push('\n');
        } else {
            assert(out@.push(s@[i as int]) + lf_to_crlf(rest.drop_first()) =~= out@ + lf_to_crlf(rest));
            out.push(s[i]);
        }
        i = i + 1;
    }
    assert(out@ + lf_to_crlf(s@.subrange(i as int, s@.len() as int)) =~= out@);
    out
}

/// `s` with the host's line endings.
pub fn normalize_line_endings(s: &[char], p: Platform) -> (r: Vec<char>)
    ensures
        r@ == normalized(s@, p),
{
    let unix = crlf_to_lf_exec(s);
    match p {
        Platform::Unix => unix,
        Platform::Windows => lf_to_crlf_exec(unix.as_slice()),
    }
}

/// Adds a newline at the end of `v` unless it already ends with one.
pub fn ensure_final_newline(v: &mut Vec<char>)
    ensures
        final(v)@ == with_final_newline(old(v)@),
{
    let n = v.len();
    if n == 0 || v[n - 1] != '\n' {
        v.push('\n');
    }
}

/// `s` holds no `c`.
pub open spec fn free_of(s: Seq<char>, c: char) -> bool {
    forall|i: int| 0 <= i < s.len() ==> s[i] != c
}

/// Text free of `\n` added to the end extends the last piece only.
proof fn lemma_split_nl_append(x: Seq<char>, b: Seq<char>)
    requires
        free_of(b, '\n'),
    ensures
        split_nl(x + b) == split_nl(x).update(
            split_nl(x).len() - 1,
            split_nl(x).last() + b,
        ),
    decreases b.len(),
{
    lemma_split_nl_nonempty(x);
    if b.len() == 0 {
        assert(x + b =~= x);
        assert(split_nl(x).last() + b =~= split_nl(x).last());
        assert(split_nl(x).update(split_nl(x).len() - 1, split_nl(x).last()) =~= split_nl(x));
    } else {
        let b0 = b.drop_last();
        lemma_split_nl_append(x, b0);
        assert((x + b).drop_last() =~= x + b0);
        assert((x + b).last() == b.last());
        assert(split_nl(x).last() + b =~= (split_nl(x).last() + b0).push(b.last()));
        assert(split_nl(x + b) =~= split_nl(x).update(split_nl(x).len() - 1, split_nl(x).last() + b));
    }
}

/// Joining lines free of `\n` and splitting again gives the lines back.
pub proof fn lemma_split_join(ls: Seq<Seq<char>>)
    requires
        ls.len() >= 1,
        forall|i: int| 0 <= i < ls.len() ==> free_of(#[trigger] ls[i], '\n'),
    ensures
        split_nl(join_lines(ls)) == ls,
    decreases ls.len(),
{
    if ls.len() == 1 {
        lemma_split_nl_append(Seq::<char>::empty(), ls[0]);
        assert(Seq::<char>::empty() + ls[0] =~= ls[0]);
        assert(split_nl(Seq::<char>::empty()) =~= seq![Seq::<char>::empty()]);
        assert(Seq::<char>::empty() + ls[0] =~= ls[0]);
        assert(split_nl(ls[0]) =~= ls);
    } else {
        let d = ls.drop_last();
        lemma_split_join(d);
        let a = join_lines(d) + seq!['\n'];
        assert(a.drop_last() =~= join_lines(d));
        assert(split_nl(a) == split_nl(join_lines(d)).push(Seq::<char>::empty()));
        lemma_split_nl_append(a, ls.last());
        assert(Seq::<char>::empty() + ls.last() =~= ls.last());
        assert(split_nl(a + ls.last()) =~= ls);
    }
}

/// Without `\r`, a text keeps its line endings on Unix.
pub proof fn lemma_crlf_free(s: Seq<char>)
    requires
        free_of(s, '\r'),
    ensures
        crlf_to_lf(s) == s,
    decreases s.len(),
{
    if s.len() > 0 {
        assert(free_of(s.drop_first(), '\r'));
        lemma_crlf_free(s.drop_first());
        assert(seq![s[0]] + s.drop_first() =~= s);
    }
}

/// The pieces of a text hold no `\n`, and no `\r` where the text has none.
pub proof fn lemma_split_pieces_free(s: Seq<char>)
    ensures
        forall|i: int| 0 <= i < split_nl(s).len() ==> free_of(#[trigger] split_nl(s)[i], '\n'),
        free_of(s, '\r') ==> forall|i: int|
            0 <= i < split_nl(s).len() ==> free_of(#[trigger] split_nl(s)[i], '\r'),
    decreases s.len(),
{
    if s.len() > 0 {
        lemma_split_pieces_free(s.drop_last());
        lemma_split_nl_nonempty(s.drop_last());
        assert(free_of(s, '\r') ==> free_of(s.drop_last(), '\r'));
    }
}

/// Lines of a text without `\r` hold neither `\n` nor `\r`.
pub proof fn lemma_lines_free(s: Seq<char>)
    requires
        free_of(s, '\r'),
    ensures
        forall|i: int| 0 <= i < lines_of(s).len() ==> free_of(#[trigger] lines_of(s)[i], '\n')
            && free_of(lines_of(s)[i], '\r'),
{
    lemma_split_pieces_free(s);
    lemma_split_nl_nonempty(s);
    let p = split_nl(s);
    assert forall|i: int| 0 <= i < p.len() - 1 implies strip_cr(#[trigger] p[i]) == p[i] by {
        assert(free_of(p[i], '\r'));
        if p[i].len() > 0 {
            assert(p[i][p[i].len() - 1] != '\r');
        }
    }
}

/// Lines without `\n` or `\r`, the last not empty (unless it is the only
/// one), joined, with a final newline: the file holds exactly those lines.
pub proof fn lemma_lines_of_written(ls: Seq<Seq<char>>)
    requires
        ls.len() >= 1,
        ls.len() == 1 || ls.last().len() > 0,
        forall|i: int| 0 <= i < ls.len() ==> free_of(#[trigger] ls[i], '\n') && free_of(ls[i], '\r'),
    ensures
        lines_of(with_final_newline(normalized(join_lines(ls), Platform::Unix))) == ls,
    decreases ls.len(),
{
    lemma_join_free(ls);
    lemma_crlf_free(join_lines(ls));
    lemma_split_join(ls);
    let j = join_lines(ls);
    if ls.len() == 1 {
        assert(j == ls[0]);
    } else {
        assert(j.last() == ls.last().last());
    }
    assert(!(j.len() > 0 && j.last() == '\n')) by {
        if j.len() > 0 && j.last() == '\n' {
            if ls.len() == 1 {
                assert(free_of(ls[0], '\n'));
            } else {
                assert(free_of(ls.last(), '\n'));
            }
        }
    }
    let w = j.push('\n');
    assert(w.drop_last() =~= j);
    assert(split_nl(w) == ls.push(Seq::<char>::empty()));
    assert(split_nl(w).drop_last() =~= ls);
    assert(ls.map_values(|l: Seq<char>| strip_cr(l)) =~= ls) by {
        assert forall|i: int| 0 <= i < ls.len() implies strip_cr(#[trigger] ls[i]) == ls[i] by {
            assert(free_of(ls[i], '\r'));
            if ls[i].len() > 0 {
                assert(ls[i][ls[i].len() - 1] != '\r');
            }
        }
    }
}

/// Joined lines without `\r` hold no `\r`.
proof fn lemma_join_free(ls: Seq<Seq<char>>)
    requires
        forall|i: int| 0 <= i < ls.len() ==> free_of(#[trigger] ls[i], '\r'),
    ensures
        free_of(join_lines(ls), '\r'),
    decreases ls.len(),
{
    if ls.len() > 1 {
        lemma_join_free(ls.drop_last());
        assert(free_of(ls.last(), '\r'));
        let a = join_lines(ls.drop_last());
        let j = a + seq!['\n'] + ls.last();
        assert forall|i: int| 0 <= i < j.len() implies j[i] != '\r' by {
            if i < a.len() {
            } else if i == a.len() {
            } else {
                assert(j[i] == ls.last()[i - a.len() - 1]);
            }
        }
    } else if ls.len() == 1 {
        assert(free_of(ls[0], '\r'));
    }
}

/// Whether `a` and `b` hold the same characters.
pub fn str_eq(a: &str, b: &str) -> (r: bool)
    ensures
        r == (a@ == b@),
{
    String::from_str(a) == String::from_str(b)
}

/// Converting line endings one character at a time from the back.
proof fn lemma_lf_to_crlf_push(s: Seq<char>, c: char)
    ensures
        lf_to_crlf(s.push(c)) == lf_to_crlf(s) + if c == '\n' {
            seq!['\r', '\n']
        } else {
            seq![c]
        },
    decreases s.len(),
{
    if s.len() == 0 {
        assert(s.push(c).drop_first() =~= Seq::<char>::empty());
        assert(lf_to_crlf(Seq::<char>::empty()) =~= Seq::<char>::empty());
    } else {
        lemma_lf_to_crlf_push(s.drop_first(), c);
        assert(s.push(c).drop_first() =~= s.drop_first().push(c));
        assert(s.push(c)[0] == s[0]);
    }
}

/// Every piece but the last followed by a carriage return.
pub open spec fn cr_pieces(p: Seq<Seq<char>>) -> Seq<Seq<char>> {
    Seq::new(p.len(), |i: int| if i < p.len() - 1 { p[i].push('\r') } else { p[i] })
}

/// With `\r\n` line endings each piece but the last gains a carriage return.
proof fn lemma_split_crlf(s: Seq<char>)
    ensures
        split_nl(lf_to_crlf(s)) == cr_pieces(split_nl(s)),
    decreases s.len(),
{
    lemma_split_nl_nonempty(s);
    if s.len() == 0 {
        assert(cr_pieces(split_nl(s)) =~= split_nl(s));
    } else {
        let d = s.drop_last();
        let c = s.last();
        lemma_split_crlf(d);
        lemma_split_nl_nonempty(d);
        assert(d.push(c) =~= s);
        lemma_lf_to_crlf_push(d, c);
        let l = lf_to_crlf(d);
        lemma_split_nl_nonempty(l);
        if c == '\n' {
            let lr = l.push('\r');
            assert(l + seq!['\r', '\n'] =~= lr.push('\n'));
            assert(lr.push('\n').drop_last() =~= lr);
            assert(lr.drop_last() =~= l);
            assert(split_nl(lr.push('\n')) == split_nl(lr).push(Seq::<char>::empty()));
            assert(split_nl(lr) == split_nl(l).update(split_nl(l).len() - 1, split_nl(l).last().push('\r')));
            assert(split_nl(s) == split_nl(d).push(Seq::<char>::empty()));
            assert(split_nl(lf_to_crlf(s)) =~= cr_pieces(split_nl(s)));
        } else {
            assert(l + seq![c] =~= l.push(c));
            assert(l.push(c).drop_last() =~= l);
            assert(split_nl(s) == split_nl(d).update(split_nl(d).len() - 1, split_nl(d).last().push(c)));
            assert(split_nl(lf_to_crlf(s)) =~= cr_pieces(split_nl(s)));
        }
    }
}

/// As `lemma_lines_of_written`, with `\r\n` line endings.
pub proof fn lemma_lines_of_written_crlf(ls: Seq<Seq<char>>)
    requires
        ls.len() >= 1,
        ls.len() == 1 || ls.last().len() > 0,
        forall|i: int| 0 <= i < ls.len() ==> free_of(#[trigger] ls[i], '\n') && free_of(ls[i], '\r'),
    ensures
        lines_of(with_final_newline(normalized(join_lines(ls), Platform::Windows))) == ls,
{
    lemma_join_free(ls);
    lemma_crlf_free(join_lines(ls));
    lemma_split_join(ls);
    let j = join_lines(ls);
    if ls.len() == 1 {
        assert(j == ls[0]);
    } else {
        assert(j.last() == ls.last().last());
    }
    assert(!(j.len() > 0 && j.last() == '\n')) by {
        if j.len() > 0 && j.last() == '\n' {
            if ls.len() == 1 {
                assert(free_of(ls[0], '\n'));
            } else {
                assert(free_of(ls.last(), '\n'));
            }
        }
    }
    lemma_split_crlf(j);
    let l = lf_to_crlf(j);
    assert(!(l.len() > 0 && l.last() == '\n')) by {
        if j.len() > 0 {
            lemma_lf_to_crlf_push(j.drop_last(), j.last());
            assert(j.drop_last().push(j.last()) =~= j);
        } else {
            assert(l =~= j);
        }
    }
    let w = l.push('\n');
    assert(w.drop_last() =~= l);
    assert(split_nl(w) == cr_pieces(ls).push(Seq::<char>::empty()));
    assert(split_nl(w).drop_last() =~= cr_pieces(ls));
    assert(cr_pieces(ls).map_values(|x: Seq<char>| strip_cr(x)) =~= ls) by {
        assert forall|i: int| 0 <= i < ls.len() implies strip_cr(#[trigger] cr_pieces(ls)[i]) == ls[i] by {
            if i < ls.len() - 1 {
                assert(cr_pieces(ls)[i].drop_last() =~= ls[i]);
            } else {
                assert(free_of(ls[i], '\r'));
                if ls[i].len() > 0 {
                    assert(ls[i][ls[i].len() - 1] != '\r');
                }
            }
        }
    }
}

} // verus!
