use vstd::prelude::*;

verus! {

/// The pieces of `s` between line feeds, from left to right.  A text with
/// `k` line feeds has `k + 1` pieces; an empty text has one empty piece.
pub open spec fn split_lines(s: Seq<char>) -> Seq<Seq<char>>
    decreases s.len(),
{
    if s.len() == 0 {
        seq![Seq::<char>::empty()]
    } else {
        let pieces = split_lines(s.drop_last());
        if s.last() == '\n' {
            pieces.push(Seq::<char>::empty())
        } else {
            pieces.update(pieces.len() - 1, pieces.last().push(s.last()))
        }
    }
}

/// A piece without the one carriage return that may end it.
pub open spec fn strip_carriage_return(line: Seq<char>) -> Seq<char> {
    if line.len() > 0 && line.last() == '\r' {
        line.drop_last()
    } else {
        line
    }
}

/// The entries of a word list: one per line, line endings removed.
pub open spec fn string_list(s: Seq<char>) -> Seq<Seq<char>> {
    split_lines(s).map_values(|line: Seq<char>| strip_carriage_return(line))
}

/// The number of times `c` occurs in `s`.
pub open spec fn count_char(s: Seq<char>, c: char) -> nat
    decreases s.len(),
{
    if s.len() == 0 {
        0
    } else {
        count_char(s.drop_last(), c) + if s.last() == c { 1nat } else { 0nat }
    }
}

/// The pieces put back together, a line feed between each two.
pub open spec fn join_lines(pieces: Seq<Seq<char>>) -> Seq<char>
    decreases pieces.len(),
{
    if pieces.len() <= 1 {
        if pieces.len() == 1 { pieces[0] } else { Seq::empty() }
    } else {
        join_lines(pieces.drop_last()) + seq!['\n'] + pieces.last()
    }
}

/// Splitting at line feeds loses nothing: there is one piece more than
/// there are line feeds, no piece holds a line feed, and joining the pieces
/// with line feeds gives the text back.
pub proof fn lemma_split_lines_join(s: Seq<char>)
    ensures
        split_lines(s).len() == count_char(s, '\n') + 1,
        forall|k: int| 0 <= k < split_lines(s).len() ==> !(#[trigger] split_lines(s)[k]).contains('\n'),
        join_lines(split_lines(s)) == s,
    decreases s.len(),
{
    if s.len() > 0 {
        let rest = s.drop_last();
        lemma_split_lines_join(rest);
        let p = split_lines(rest);
        let c = s.last();
        if c == '\n' {
            let q = p.push(Seq::<char>::empty());
            assert(q.drop_last() =~= p);
            assert forall|k: int| 0 <= k < q.len() implies !(#[trigger] q[k]).contains('\n') by {
                if k < p.len() {
                    assert(q[k] == p[k]);
                }
            }
            assert(join_lines(q) =~= join_lines(p) + seq!['\n'] + Seq::<char>::empty());
            assert(s =~= rest.push(c));
        } else {
            let q = p.update(p.len() - 1, p.last().push(c));
            assert forall|k: int| 0 <= k < q.len() implies !(#[trigger] q[k]).contains('\n') by {
                if k < p.len() - 1 {
                    assert(q[k] == p[k]);
                } else {
                    let piece = p.last().push(c);
                    assert(!p[k].contains('\n'));
                    if piece.contains('\n') {
                        let i = choose|i: int| 0 <= i < piece.len() && piece[i] == '\n';
                        if i < p.last().len() {
                            assert(p.last()[i] == '\n');
                        }
                    }
                }
            }
            if p.len() == 1 {
                assert(join_lines(q) == q[0]);
                assert(join_lines(p) == p[0]);
                assert(s =~= rest.push(c));
            } else {
                assert(q.drop_last() =~= p.drop_last());
                assert(join_lines(q) =~= join_lines(p.drop_last()) + seq!['\n'] + p.last().push(c));
                assert(join_lines(p) == join_lines(p.drop_last()) + seq!['\n'] + p.last());
                assert(s =~= rest.push(c));
            }
        }
    } else {
        assert(join_lines(seq![Seq::<char>::empty()]) == Seq::<char>::empty());
    }
}

/// A word list has one entry more than its text has line feeds, and no entry
/// holds a line feed.
pub proof fn lemma_string_list_entries(s: Seq<char>)
    ensures
        string_list(s).len() == count_char(s, '\n') + 1,
        forall|k: int| 0 <= k < string_list(s).len() ==> !(#[trigger] string_list(s)[k]).contains('\n'),
{
    lemma_split_lines_join(s);
    assert forall|k: int| 0 <= k < string_list(s).len() implies !(#[trigger] string_list(s)[k]).contains('\n') by {
        let line = split_lines(s)[k];
        assert(!line.contains('\n'));
        let entry = strip_carriage_return(line);
        if entry.contains('\n') {
            let i = choose|i: int| 0 <= i < entry.len() && entry[i] == '\n';
            assert(line[i] == '\n');
        }
    }
}

/// Each entry of a word list is its line with one ending carriage return
/// taken off, where the line has one, and the line itself otherwise.
pub proof fn lemma_string_list_strips_one_carriage_return(s: Seq<char>)
    ensures
        string_list(s).len() == split_lines(s).len(),
        forall|k: int|
            0 <= k < split_lines(s).len() ==> {
                let line = #[trigger] split_lines(s)[k];
                &&& line.len() > 0 && line.last() == '\r' ==> string_list(s)[k].push('\r') == line
                &&& !(line.len() > 0 && line.last() == '\r') ==> string_list(s)[k] == line
            },
{
    assert forall|k: int| 0 <= k < split_lines(s).len() implies {
        let line = #[trigger] split_lines(s)[k];
        &&& line.len() > 0 && line.last() == '\r' ==> string_list(s)[k].push('\r') == line
        &&& !(line.len() > 0 && line.last() == '\r') ==> string_list(s)[k] == line
    } by {
        let line = split_lines(s)[k];
        if line.len() > 0 && line.last() == '\r' {
            assert(line.drop_last().push('\r') =~= line);
        }
    }
}

/// Splits a word list into its lines, dropping a carriage return that ends a
/// line, so that lists written with `\n` or with `\r\n` read alike.
pub fn load_string_list(list: &str) -> (entries: Vec<&str>)
    ensures
        entries@.len() == string_list(list@).len(),
        forall|k: int|
            0 <= k < entries@.len() ==> #[trigger] entries@[k]@ == string_list(list@)[k],
{
    let n = list.unicode_len();
    let mut entries: Vec<&str> = Vec::new();
    let mut start: usize = 0;
    let mut i: usize = 0;
    let ghost mut done: Seq<Seq<char>> = Seq::empty();
    assert(list@.take(0) =~= Seq::<char>::empty());
    assert(list@.subrange(0, 0) =~= Seq::<char>::empty());
    assert(done.push(Seq::<char>::empty()) =~= seq![Seq::<char>::empty()]);
    while i < n
        invariant
            n == list@.len(),
            start <= i <= n,
            split_lines(list@.take(i as int)) == done.push(list@.subrange(start as int, i as int)),
            entries@.len() == done.len(),
            forall|k: int|
                0 <= k < done.len() ==> #[trigger] entries@[k]@ == strip_carriage_return(done[k]),
        decreases n - i,
    {
        let c = list.get_char(i);
        let ghost before = list@.take(i as int);
        assert(list@.take(i + 1).drop_last() == before);
        assert(list@.take(i + 1).last() == c);
        if c == '\n' {
            let line = cut_line(list, start, i);
            entries.push(line);
            proof {
                done = done.push(list@.subrange(start as int, i as int));
            }
            start = i + 1;
            assert(list@.subrange(start as int, i + 1) =~= Seq::<char>::empty());
        } else {
            assert(list@.subrange(start as int, i + 1) =~= list@.subrange(start as int, i as int).push(c));
        }
        i = i + 1;
    }
    let line = cut_line(list, start, n);
    entries.push(line);
    proof {
        assert(list@.take(n as int) =~= list@);
        done = done.push(list@.subrange(start as int, n as int));
    }
    entries
}

/// The characters of `list` from `start` up to `end`, without a carriage
/// return that ends them.
fn cut_line(list: &str, start: usize, end: usize) -> (line: &str)
    requires
        start <= end <= list@.len(),
    ensures
        line@ == strip_carriage_return(list@.subrange(start as int, end as int)),
{
    if start < end && list.get_char(end - 1) == '\r' {
        let line = list.substring_char(start, end - 1);
        assert(line@ =~= list@.subrange(start as int, end as int).drop_last());
        line
    } else {
        list.substring_char(start, end)
    }
}

/// Whether `c` has the Unicode `White_Space` property, which is what
/// `char::is_whitespace` tests.
pub open spec fn is_whitespace(c: char) -> bool {
    ('\t' <= c && c <= '\r') || c == ' ' || c == '\u{85}' || c == '\u{A0}' || c == '\u{1680}'
        || ('\u{2000}' <= c && c <= '\u{200A}') || c == '\u{2028}' || c == '\u{2029}'
        || c == '\u{202F}' || c == '\u{205F}' || c == '\u{3000}'
}

/// `s` without the white space that ends it.
pub open spec fn trim_end(s: Seq<char>) -> Seq<char>
    decreases s.len(),
{
    if s.len() > 0 && is_whitespace(s.last()) {
        trim_end(s.drop_last())
    } else {
        s
    }
}

/// `s` without the white space that begins it.
pub open spec fn trim_start(s: Seq<char>) -> Seq<char>
    decreases s.len(),
{
    if s.len() > 0 && is_whitespace(s[0]) {
        trim_start(s.drop_first())
    } else {
        s
    }
}

/// `s` without white space at either end, as `str::trim` gives it.
pub open spec fn trim(s: Seq<char>) -> Seq<char> {
    trim_start(trim_end(s))
}

proof fn lemma_trim_end_clean(s: Seq<char>)
    ensures
        trim_end(s) == s.take(trim_end(s).len() as int),
        trim_end(s).len() <= s.len(),
        trim_end(s).len() == 0 || !is_whitespace(trim_end(s).last()),
    decreases s.len(),
{
    if s.len() > 0 && is_whitespace(s.last()) {
        lemma_trim_end_clean(s.drop_last());
        let t = trim_end(s.drop_last());
        assert(s.drop_last().take(t.len() as int) =~= s.take(t.len() as int));
    } else {
        assert(s.take(s.len() as int) =~= s);
    }
}

proof fn lemma_trim_start_clean(s: Seq<char>)
    ensures
        trim_start(s) == s.skip(s.len() - trim_start(s).len()),
        trim_start(s).len() <= s.len(),
        trim_start(s).len() == 0 || !is_whitespace(trim_start(s)[0]),
        trim_start(s).len() > 0 ==> trim_start(s).last() == s.last(),
    decreases s.len(),
{
    if s.len() > 0 && is_whitespace(s[0]) {
        lemma_trim_start_clean(s.drop_first());
        let t = trim_start(s.drop_first());
        assert(s.drop_first().skip(s.len() - 1 - t.len()) =~= s.skip(s.len() - t.len()));
    } else {
        assert(s.skip(0) =~= s);
    }
}

/// Trimming leaves a part of the text that neither begins nor ends with
/// white space, and trimming that again changes nothing.
pub proof fn lemma_trim_clean(s: Seq<char>)
    ensures
        trim(s).len() <= s.len(),
        trim(s).len() == 0 || (!is_whitespace(trim(s)[0]) && !is_whitespace(trim(s).last())),
        trim(trim(s)) == trim(s),
{
    lemma_trim_end_clean(s);
    let e = trim_end(s);
    lemma_trim_start_clean(e);
    let t = trim(s);
    lemma_trim_end_clean(t);
    lemma_trim_start_clean(t);
    if t.len() > 0 {
        assert(trim_end(t) == t);
        assert(trim_start(t) == t);
    } else {
        assert(trim_end(t) =~= t);
        assert(trim_start(t) =~= t);
    }
}

/// Trimming keeps one unbroken stretch of the text and removes only white
/// space before and after it.
pub proof fn lemma_trim_removes_only_white_space(s: Seq<char>)
    ensures
        exists|a: int, b: int|
            0 <= a <= b <= s.len() && trim(s) == s.subrange(a, b)
                && (forall|i: int| 0 <= i < a ==> is_whitespace(#[trigger] s[i]))
                && (forall|i: int| b <= i < s.len() ==> is_whitespace(#[trigger] s[i])),
{
    lemma_trim_end_kept(s);
    let e = trim_end(s);
    lemma_trim_start_kept(e);
    let b = e.len() as int;
    let a = b - trim(s).len();
    assert(trim(s) =~= s.subrange(a, b));
    assert forall|i: int| 0 <= i < a implies is_whitespace(#[trigger] s[i]) by {
        assert(e[i] == s[i]);
    }
}

proof fn lemma_trim_end_kept(s: Seq<char>)
    ensures
        trim_end(s).len() <= s.len(),
        trim_end(s) == s.take(trim_end(s).len() as int),
        forall|i: int| trim_end(s).len() <= i < s.len() ==> is_whitespace(#[trigger] s[i]),
    decreases s.len(),
{
    if s.len() > 0 && is_whitespace(s.last()) {
        lemma_trim_end_kept(s.drop_last());
        let t = trim_end(s.drop_last());
        assert(s.drop_last().take(t.len() as int) =~= s.take(t.len() as int));
        assert forall|i: int| trim_end(s).len() <= i < s.len() implies is_whitespace(#[trigger] s[i]) by {
            if i < s.len() - 1 {
                assert(s.drop_last()[i] == s[i]);
            }
        }
    } else {
        assert(s.take(s.len() as int) =~= s);
    }
}

proof fn lemma_trim_start_kept(s: Seq<char>)
    ensures
        trim_start(s).len() <= s.len(),
        trim_start(s) == s.skip(s.len() - trim_start(s).len()),
        forall|i: int| 0 <= i < s.len() - trim_start(s).len() ==> is_whitespace(#[trigger] s[i]),
    decreases s.len(),
{
    if s.len() > 0 && is_whitespace(s[0]) {
        lemma_trim_start_kept(s.drop_first());
        let t = trim_start(s.drop_first());
        assert(s.drop_first().skip(s.len() - 1 - t.len()) =~= s.skip(s.len() - t.len()));
        assert forall|i: int| 0 <= i < s.len() - trim_start(s).len() implies is_whitespace(#[trigger] s[i]) by {
            if i > 0 {
                assert(s.drop_first()[i - 1] == s[i]);
            }
        }
    } else {
        assert(s.skip(0) =~= s);
    }
}

/// Spacing the bars of a text is spacing those of its parts: a `|` becomes
/// ` | `, every other character stays as it is.
pub proof fn lemma_spaced_bars_by_parts(a: Seq<char>, b: Seq<char>)
    ensures
        spaced_bars(a + b) == spaced_bars(a) + spaced_bars(b),
        forall|c: char| #[trigger] spaced_bars(seq![c]) == if c == '|' { seq![' ', '|', ' '] } else { seq![c] },
    decreases b.len(),
{
    assert forall|c: char| #[trigger] spaced_bars(seq![c]) == if c == '|' { seq![' ', '|', ' '] } else { seq![c] } by {
        assert(seq![c].drop_last() =~= Seq::<char>::empty());
        assert(seq![c].last() == c);
        assert(spaced_bars(Seq::<char>::empty()) == Seq::<char>::empty());
        if c == '|' {
            assert(Seq::<char>::empty() + seq![' ', '|', ' '] =~= seq![' ', '|', ' ']);
        } else {
            assert(Seq::<char>::empty().push(c) =~= seq![c]);
        }
        assert(spaced_bars(seq![c]) =~= if c == '|' { seq![' ', '|', ' '] } else { seq![c] });
    }
    if b.len() == 0 {
        assert(a + b =~= a);
        assert(spaced_bars(a) + spaced_bars(b) =~= spaced_bars(a));
    } else {
        lemma_spaced_bars_by_parts(a, b.drop_last());
        assert((a + b).drop_last() =~= a + b.drop_last());
        assert((a + b).last() == b.last());
        if b.last() == '|' {
            assert(spaced_bars(a + b) =~= spaced_bars(a) + spaced_bars(b));
        } else {
            assert(spaced_bars(a + b) =~= spaced_bars(a) + spaced_bars(b));
        }
    }
}

fn is_whitespace_char(c: char) -> (b: bool)
    ensures
        b == is_whitespace(c),
{
    ('\t' <= c && c <= '\r') || c == ' ' || c == '\u{85}' || c == '\u{A0}' || c == '\u{1680}'
        || ('\u{2000}' <= c && c <= '\u{200A}') || c == '\u{2028}' || c == '\u{2029}'
        || c == '\u{202F}' || c == '\u{205F}' || c == '\u{3000}'
}

/// `s` with the white space at both of its ends removed.
pub fn trim_whitespace(s: &str) -> (t: String)
    ensures
        t@ == trim(s@),
{
    let n = s.unicode_len();
    let mut end: usize = n;
    assert(s@.take(n as int) =~= s@);
    while end > 0 && is_whitespace_char(s.get_char(end - 1))
        invariant
            n == s@.len(),
            end <= n,
            trim_end(s@) == trim_end(s@.take(end as int)),
        decreases end,
    {
        assert(s@.take(end as int).drop_last() =~= s@.take(end - 1));
        end = end - 1;
    }
    let ghost kept = s@.take(end as int);
    assert(trim_end(kept) == kept);
    let mut start: usize = 0;
    assert(kept.skip(0) =~= kept);
    while start < end && is_whitespace_char(s.get_char(start))
        invariant
            n == s@.len(),
            start <= end <= n,
            kept == s@.take(end as int),
            trim_start(kept) == trim_start(kept.skip(start as int)),
        decreases end - start,
    {
        assert(kept.skip(start as int).drop_first() =~= kept.skip(start + 1));
        start = start + 1;
    }
    let t = s.substring_char(start, end);
    assert(t@ =~= kept.skip(start as int));
    String::from_str(t)
}

/// `s` with a space on either side of every `|`.
pub open spec fn spaced_bars(s: Seq<char>) -> Seq<char>
    decreases s.len(),
{
    if s.len() == 0 {
        Seq::empty()
    } else if s.last() == '|' {
        spaced_bars(s.drop_last()) + seq![' ', '|', ' ']
    } else {
        spaced_bars(s.drop_last()).push(s.last())
    }
}

/// `s` with every `|` replaced by ` | `.
pub fn space_bars(s: &str) -> (t: String)
    ensures
        t@ == spaced_bars(s@),
{
    let n = s.unicode_len();
    let mut t = String::new();
    let mut i: usize = 0;
    assert(s@.take(0) =~= Seq::<char>::empty());
    while i < n
        invariant
            n == s@.len(),
            i <= n,
            t@ == spaced_bars(s@.take(i as int)),
        decreases n - i,
    {
        let c = s.get_char(i);
        assert(s@.take(i + 1).drop_last() =~= s@.take(i as int));
        assert(s@.take(i + 1).last() == c);
        if c == '|' {
            t.push(' ');
            t.push('|');
            t.push(' ');
            assert(t@ =~= spaced_bars(s@.take(i as int)) + seq![' ', '|', ' ']);
        } else {
            t.push(c);
        }
        i = i + 1;
    }
    assert(s@.take(n as int) =~= s@);
    t
}

/// The decimal digit for `d` (below ten).
pub open spec fn decimal_char(d: nat) -> char {
    (48 + d) as char
}

/// The decimal digits of `n`, with no leading zeros.
pub open spec fn decimal(n: nat) -> Seq<char>
    decreases n,
{
    if n < 10 {
        seq![decimal_char(n)]
    } else {
        decimal(n / 10).push(decimal_char(n % 10))
    }
}

/// The decimal digits of `n`, padded with zeros on the left to two digits.
pub open spec fn decimal_pad2(n: nat) -> Seq<char> {
    if n < 10 {
        seq!['0', decimal_char(n)]
    } else {
        decimal(n)
    }
}

/// The number that the decimal digits `s` write, most significant first.
pub open spec fn decimal_value(s: Seq<char>) -> int
    decreases s.len(),
{
    if s.len() == 0 {
        0
    } else {
        decimal_value(s.drop_last()) * 10 + (s.last() as int - '0' as int)
    }
}

/// Whether every character of `s` is one of `0` to `9`.
pub open spec fn all_decimal_digits(s: Seq<char>) -> bool {
    forall|i: int| 0 <= i < s.len() ==> '0' <= #[trigger] s[i] && s[i] <= '9'
}

/// `decimal(n)` writes `n` in decimal with no leading zero: it is at least one
/// digit, only digits, reads back as `n`, and begins with `0` only for zero.
pub proof fn lemma_decimal_writes_number(n: nat)
    ensures
        decimal(n).len() >= 1,
        all_decimal_digits(decimal(n)),
        decimal_value(decimal(n)) == n,
        n >= 1 ==> decimal(n)[0] != '0',
        n < 10 <==> decimal(n).len() == 1,
    decreases n,
{
    let d = decimal(n);
    if n < 10 {
        assert(d =~= seq![decimal_char(n)]);
        assert(d.drop_last() =~= Seq::<char>::empty());
        assert(d.last() as int == 48 + n);
        assert(decimal_value(d) == decimal_value(d.drop_last()) * 10 + (d.last() as int - 48));
    } else {
        lemma_decimal_writes_number(n / 10);
        let p = decimal(n / 10);
        assert(d.drop_last() =~= p);
        assert(d.last() as int == 48 + n % 10);
        assert(decimal_value(d) == decimal_value(p) * 10 + (d.last() as int - 48));
        assert(d[0] == p[0]);
        assert forall|i: int| 0 <= i < d.len() implies '0' <= #[trigger] d[i] && d[i] <= '9' by {
            if i < p.len() {
                assert(d[i] == p[i]);
            }
        }
    }
}

/// `n` padded to two digits is the decimal digits of `n` behind as many
/// zeros as bring it to two characters (none where it has two or more).
pub proof fn lemma_decimal_pad2_is_padding(n: nat)
    ensures
        decimal_pad2(n) == Seq::new(
            if decimal(n).len() < 2 { (2 - decimal(n).len()) as nat } else { 0nat },
            |i: int| '0',
        ) + decimal(n),
        decimal_pad2(n).len() == if decimal(n).len() < 2 { 2 } else { decimal(n).len() },
        decimal_value(decimal_pad2(n)) == n,
{
    lemma_decimal_writes_number(n);
    let pad = if decimal(n).len() < 2 { (2 - decimal(n).len()) as nat } else { 0nat };
    let zeros = Seq::new(pad, |i: int| '0');
    if n < 10 {
        assert(decimal(n) =~= seq![decimal_char(n)]);
        assert(decimal_pad2(n) =~= zeros + decimal(n));
        let p = decimal_pad2(n);
        assert(p.drop_last() =~= seq!['0']);
        assert(seq!['0'].drop_last() =~= Seq::<char>::empty());
        assert(decimal_value(seq!['0']) == decimal_value(Seq::<char>::empty()) * 10 + ('0' as int - 48));
        assert(p.last() as int == 48 + n);
        assert(decimal_value(p) == decimal_value(p.drop_last()) * 10 + (p.last() as int - 48));
    } else {
        assert(decimal_pad2(n) =~= zeros + decimal(n));
    }
}

/// Appends the decimal digits of `n`.
pub fn push_decimal(out: &mut String, n: u64)
    ensures
        final(out)@ == old(out)@ + decimal(n as nat),
    decreases n,
{
    if n >= 10 {
        push_decimal(out, n / 10);
    }
    out.push(((48 + n % 10) as u8) as char);
    proof {
        if n >= 10 {
            assert(decimal(n as nat) == decimal((n / 10) as nat).push(decimal_char((n % 10) as nat)));
        } else {
            assert(decimal(n as nat) =~= seq![decimal_char(n as nat)]);
        }
    }
}

/// Appends the decimal digits of `n`, padded with zeros to two digits.
pub fn push_decimal_pad2(out: &mut String, n: u64)
    ensures
        final(out)@ == old(out)@ + decimal_pad2(n as nat),
{
    if n < 10 {
        out.push('0');
    }
    push_decimal(out, n);
    proof {
        if n < 10 {
            assert(decimal(n as nat) =~= seq![decimal_char(n as nat)]);
            assert(decimal_pad2(n as nat) =~= seq!['0'] + decimal(n as nat));
        }
    }
}

/// Whether two texts hold the same characters.
pub fn same_text(a: &str, b: &str) -> (r: bool)
    ensures
        r == (a@ == b@),
{
    let n = a.unicode_len();
    if n != b.unicode_len() {
        return false;
    }
    let mut i: usize = 0;
    while i < n
        invariant
            n == a@.len(),
            n == b@.len(),
            i <= n,
            forall|k: int| 0 <= k < i ==> a@[k] == b@[k],
        decreases n - i,
    {
        if a.get_char(i) != b.get_char(i) {
            return false;
        }
        i = i + 1;
    }
    assert(a@ =~= b@);
    true
}

/// Whether `s` ends with the characters of `suffix`.
pub fn ends_with_text(s: &str, suffix: &str) -> (r: bool)
    ensures
        r == (suffix@.len() <= s@.len() && s@.skip(s@.len() - suffix@.len()) == suffix@),
{
    let n = s.unicode_len();
    let m = suffix.unicode_len();
    if m > n {
        return false;
    }
    let tail = s.substring_char(n - m, n);
    assert(tail@ =~= s@.skip(n - m));
    same_text(tail, suffix)
}

} // verus!
