//! Comma-separated tables: parsing a CSV text into a header row and its
//! data cells, and rendering the table with fixed-width columns.

use vstd::prelude::*;
use crate::textutil::push_char;
use crate::wire::str_eq;

verus! {

/// The length of the run of characters before the first `sep`, or the whole
/// length when `sep` does not occur.
pub open spec fn scan_until(s: Seq<char>, sep: char) -> nat
    decreases s.len(),
{
    if s.len() == 0 || s[0] == sep {
        0
    } else {
        1 + scan_until(s.drop_first(), sep)
    }
}

/// The scan stops at the first separator, or at the end.
proof fn lemma_scan_until(s: Seq<char>, sep: char, k: int)
    requires
        0 <= k <= s.len(),
        forall|i: int| 0 <= i < k ==> s[i] != sep,
        k == s.len() || s[k] == sep,
    ensures
        scan_until(s, sep) == k,
    decreases s.len(),
{
    if k > 0 {
        let rest = s.drop_first();
        assert(forall|i: int| 0 <= i < k - 1 ==> rest[i] == s[i + 1]);
        lemma_scan_until(rest, sep, k - 1);
    }
}

/// The pieces of `s` between occurrences of `sep`: always one piece more
/// than there are separators, so the split of an empty sequence is one
/// empty piece.
pub open spec fn split_on(s: Seq<char>, sep: char) -> Seq<Seq<char>>
    decreases s.len(),
{
    let t = scan_until(s, sep);
    if t >= s.len() {
        seq![s]
    } else {
        seq![s.subrange(0, t as int)] + split_on(s.subrange(t as int + 1, s.len() as int), sep)
    }
}

/// A line without its trailing carriage return, if it has one.
pub open spec fn strip_cr(line: Seq<char>) -> Seq<char> {
    if line.len() > 0 && line.last() == '\r' {
        line.drop_last()
    } else {
        line
    }
}

/// The lines of `s`: pieces between newlines, each without a trailing
/// carriage return, and with no empty final line after a terminal newline.
pub open spec fn split_lines(s: Seq<char>) -> Seq<Seq<char>>
    decreases s.len(),
{
    if s.len() == 0 {
        Seq::empty()
    } else {
        let t = scan_until(s, '\n');
        if t >= s.len() {
            seq![strip_cr(s)]
        } else {
            seq![strip_cr(s.subrange(0, t as int))] + split_lines(s.subrange(t as int + 1, s.len() as int))
        }
    }
}

/// The character sequences a run of strings holds.
pub open spec fn str_views(s: Seq<String>) -> Seq<Seq<char>> {
    s.map_values(|x: String| x@)
}

/// Splits `s` at every `sep`.
fn split_str(s: &str, sep: char) -> (r: Vec<String>)
    ensures
        str_views(r@) == split_on(s@, sep),
{
    let n = s.unicode_len();
    let mut out: Vec<String> = Vec::new();
    let mut start: usize = 0;
    let mut k: usize = 0;
    proof {
        assert(s@.subrange(0, n as int) =~= s@);
        assert(str_views(out@) + split_on(s@, sep) =~= split_on(s@, sep));
    }
    while k < n
        invariant
            start <= k <= n,
            n == s@.len(),
            forall|i: int| start <= i < k ==> s@[i] != sep,
            split_on(s@, sep) == str_views(out@) + split_on(
                s@.subrange(start as int, n as int),
                sep,
            ),
        decreases n - k,
    {
        if s.get_char(k) == sep {
            let ghost tail = s@.subrange(start as int, n as int);
            let piece = s.substring_char(start, k);
            let ghost before = out@;
            out.push(String::from_str(piece));
            proof {
                assert(forall|i: int| 0 <= i < k - start ==> tail[i] == s@[start + i]);
                lemma_scan_until(tail, sep, k - start);
                assert(tail.subrange(0, k - start) =~= s@.subrange(start as int, k as int));
                assert(tail.subrange(k - start + 1, tail.len() as int) =~= s@.subrange(
                    k as int + 1,
                    n as int,
                ));
                assert(str_views(out@) =~= str_views(before) + seq![piece@]);
                assert(str_views(before) + split_on(tail, sep) =~= str_views(out@) + split_on(
                    s@.subrange(k as int + 1, n as int),
                    sep,
                ));
            }
            start = k + 1;
        }
        k = k + 1;
    }
    let ghost tail = s@.subrange(start as int, n as int);
    let piece = s.substring_char(start, n);
    let ghost before = out@;
    out.push(String::from_str(piece));
    proof {
        assert(forall|i: int| 0 <= i < n - start ==> tail[i] == s@[start + i]);
        lemma_scan_until(tail, sep, n - start);
        assert(split_on(tail, sep) =~= seq![tail]);
        assert(str_views(out@) =~= str_views(before) + seq![piece@]);
        assert(str_views(out@) =~= str_views(before) + split_on(tail, sep));
    }
    out
}

/// Strips the trailing carriage return from one line.
fn strip_cr_str(line: &str) -> (r: String)
    ensures
        r@ == strip_cr(line@),
{
    let n = line.unicode_len();
    if n > 0 && line.get_char(n - 1) == '\r' {
        let piece = line.substring_char(0, n - 1);
        proof {
            assert(line@.subrange(0, n as int - 1) =~= line@.drop_last());
        }
        String::from_str(piece)
    } else {
        String::from_str(line)
    }
}

/// Splits `s` into its lines.
fn split_lines_str(s: &str) -> (r: Vec<String>)
    ensures
        str_views(r@) == split_lines(s@),
{
    let n = s.unicode_len();
    let mut out: Vec<String> = Vec::new();
    if n == 0 {
        proof {
            assert(str_views(out@) =~= split_lines(s@));
        }
        return out;
    }
    let mut start: usize = 0;
    let mut k: usize = 0;
    proof {
        assert(s@.subrange(0, n as int) =~= s@);
        assert(str_views(out@) + split_lines(s@) =~= split_lines(s@));
    }
    while k < n
        invariant
            start <= k <= n,
            0 < n == s@.len(),
            forall|i: int| start <= i < k ==> s@[i] != '\n',
            start < n ==> split_lines(s@) == str_views(out@) + split_lines(
                s@.subrange(start as int, n as int),
            ),
            start == n ==> split_lines(s@) == str_views(out@),
        decreases n - k,
    {
        if s.get_char(k) == '\n' {
            let ghost tail = s@.subrange(start as int, n as int);
            let line = s.substring_char(start, k);
            let stripped = strip_cr_str(line);
            let ghost before = out@;
            out.push(stripped);
            proof {
                assert(forall|i: int| 0 <= i < k - start ==> tail[i] == s@[start + i]);
                lemma_scan_until(tail, '\n', k - start);
                assert(tail.subrange(0, k - start) =~= s@.subrange(start as int, k as int));
                assert(tail.subrange(k - start + 1, tail.len() as int) =~= s@.subrange(
                    k as int + 1,
                    n as int,
                ));
                assert(str_views(out@) =~= str_views(before) + seq![strip_cr(line@)]);
                if k + 1 < n {
                    assert(str_views(before) + split_lines(tail) =~= str_views(out@) + split_lines(
                        s@.subrange(k as int + 1, n as int),
                    ));
                } else {
                    assert(s@.subrange(k as int + 1, n as int) =~= Seq::<char>::empty());
                    assert(str_views(before) + split_lines(tail) =~= str_views(out@));
                }
            }
            start = k + 1;
        }
        k = k + 1;
    }
    if start < n {
        let ghost tail = s@.subrange(start as int, n as int);
        let line = s.substring_char(start, n);
        let stripped = strip_cr_str(line);
        let ghost before = out@;
        out.push(stripped);
        proof {
            assert(forall|i: int| 0 <= i < n - start ==> tail[i] == s@[start + i]);
            lemma_scan_until(tail, '\n', n - start);
            assert(split_lines(tail) =~= seq![strip_cr(tail)]);
            assert(tail =~= line@);
            assert(str_views(out@) =~= str_views(before) + seq![strip_cr(line@)]);
        }
    }
    out
}

/// A parsed comma-separated table: the first line's cells, then every
/// further line's cells in reading order.
pub struct Csv {
    pub header: Vec<String>,
    pub data: Vec<String>,
}

/// The data cells of every line after the first.
pub open spec fn spec_data_words(lines: Seq<Seq<char>>) -> Seq<Seq<char>>
    decreases lines.len(),
{
    if lines.len() == 0 {
        Seq::empty()
    } else {
        spec_data_words(lines.drop_last()) + split_on(lines.last(), ',')
    }
}

/// Parses a comma-separated text: the first line becomes the header cells,
/// every further line contributes its cells to the data, in order.
pub fn read_csv(content: &str) -> (r: Csv)
    ensures
        ({
            let lines = split_lines(content@);
            if lines.len() == 0 {
                str_views(r.header@) == Seq::<Seq<char>>::empty() && str_views(r.data@)
                    == Seq::<Seq<char>>::empty()
            } else {
                str_views(r.header@) == split_on(lines[0], ',') && str_views(r.data@)
                    == spec_data_words(lines.skip(1))
            }
        }),
{
    let lines = split_lines_str(content);
    let ghost lviews = split_lines(content@);
    let mut header: Vec<String> = Vec::new();
    let mut data: Vec<String> = Vec::new();
    if lines.len() == 0 {
        proof {
            assert(str_views(header@) =~= Seq::<Seq<char>>::empty());
            assert(str_views(data@) =~= Seq::<Seq<char>>::empty());
        }
        return Csv { header, data };
    }
    header = split_str(lines[0].as_str(), ',');
    let total = lines.len();
    let mut i: usize = 1;
    proof {
        assert(lviews.skip(1).subrange(0, 0) =~= Seq::<Seq<char>>::empty());
        assert(str_views(data@) =~= spec_data_words(lviews.skip(1).subrange(0, 0)));
    }
    while i < total
        invariant
            1 <= i <= total,
            total == lines@.len(),
            str_views(lines@) == lviews,
            str_views(data@) == spec_data_words(lviews.skip(1).subrange(0, i as int - 1)),
        decreases total - i,
    {
        let mut words = split_str(lines[i].as_str(), ',');
        let ghost before = data@;
        let ghost prefix = lviews.skip(1).subrange(0, i as int - 1);
        data.append(&mut words);
        proof {
            let cur = lviews.skip(1).subrange(0, i as int);
            assert(cur.drop_last() =~= prefix);
            assert(cur.last() == lviews[i as int]);
            assert(lviews[i as int] == lines@[i as int]@);
            assert(str_views(data@) =~= spec_data_words(cur));
        }
        i = i + 1;
    }
    proof {
        assert(lviews.skip(1).subrange(0, total as int - 1) =~= lviews.skip(1));
    }
    Csv { header, data }
}

/// The length of the longest cell.
pub open spec fn max_word_len(words: Seq<Seq<char>>) -> nat
    decreases words.len(),
{
    if words.len() == 0 {
        0
    } else {
        let rest = max_word_len(words.drop_last());
        if words.last().len() > rest {
            words.last().len()
        } else {
            rest
        }
    }
}

/// `n` blanks.
pub open spec fn spaces(n: int) -> Seq<char>
    decreases n,
{
    if n <= 0 {
        Seq::empty()
    } else {
        spaces(n - 1).push(' ')
    }
}

/// One cell padded to the column width: the longest cell plus two blanks.
pub open spec fn pad_word(w: Seq<char>, longest: nat) -> Seq<char> {
    w + spaces(longest - w.len()) + "  "@
}

/// A run of cells, each padded.
pub open spec fn render_words(words: Seq<Seq<char>>, longest: nat) -> Seq<char>
    decreases words.len(),
{
    if words.len() == 0 {
        Seq::empty()
    } else {
        render_words(words.drop_last(), longest) + pad_word(words.last(), longest)
    }
}

/// The data cells, each padded, with a line break after every full row of
/// `cols` cells.
pub open spec fn render_data(words: Seq<Seq<char>>, longest: nat, cols: nat) -> Seq<char>
    decreases words.len(),
{
    if words.len() == 0 {
        Seq::empty()
    } else {
        render_data(words.drop_last(), longest, cols) + pad_word(words.last(), longest) + (
        if cols > 0 && words.len() as int % cols as int == 0 {
            "\n"@
        } else {
            Seq::<char>::empty()
        })
    }
}

/// The whole table: the padded header cells, a line break, then the padded
/// data cells in rows as wide as the header.
pub open spec fn spec_render_table(header: Seq<Seq<char>>, data: Seq<Seq<char>>) -> Seq<char> {
    let longest = if max_word_len(header) > max_word_len(data) {
        max_word_len(header)
    } else {
        max_word_len(data)
    };
    render_words(header, longest) + "\n"@ + render_data(data, longest, header.len())
}

/// The length of the longest cell of `words`.
fn max_len_of(words: &Vec<String>) -> (m: usize)
    ensures
        m == max_word_len(str_views(words@)),
{
    let n = words.len();
    let mut m: usize = 0;
    let mut k: usize = 0;
    proof {
        assert(str_views(words@).subrange(0, 0) =~= Seq::<Seq<char>>::empty());
    }
    while k < n
        invariant
            k <= n,
            n == words@.len(),
            m == max_word_len(str_views(words@).subrange(0, k as int)),
        decreases n - k,
    {
        let len = words[k].as_str().unicode_len();
        proof {
            assert(str_views(words@).subrange(0, k as int + 1).drop_last() =~= str_views(
                words@,
            ).subrange(0, k as int));
            assert(str_views(words@).subrange(0, k as int + 1).last() == words@[k as int]@);
        }
        if len > m {
            m = len;
        }
        k = k + 1;
    }
    proof {
        assert(str_views(words@).subrange(0, n as int) =~= str_views(words@));
    }
    m
}

/// Appends one cell padded to the column width.
fn push_padded(out: &mut String, word: &String, longest: usize)
    requires
        word@.len() <= longest,
    ensures
        final(out)@ == old(out)@ + pad_word(word@, longest as nat),
{
    out.append(word.as_str());
    let len = word.as_str().unicode_len();
    let mut p = len;
    proof {
        assert(out@ =~= old(out)@ + word@ + spaces(0));
    }
    while p < longest
        invariant
            word@.len() <= p <= longest,
            out@ == old(out)@ + word@ + spaces(p - word@.len()),
        decreases longest - p,
    {
        push_char(out, ' ');
        proof {
            assert(out@ =~= old(out)@ + word@ + spaces(p + 1 - word@.len()));
        }
        p = p + 1;
    }
    push_char(out, ' ');
    push_char(out, ' ');
    proof {
        reveal_strlit("  ");
        assert("  "@ =~= seq![' ', ' ']);
        assert(out@ =~= old(out)@ + pad_word(word@, longest as nat));
    }
}

impl Csv {
    /// Renders the table with fixed-width columns: every cell padded to the
    /// longest cell plus two blanks, the header on its own line, the data
    /// in rows as wide as the header.
    pub fn render(&self) -> (r: String)
        requires
            self.header@.len() > 0,
            self.data@.len() > 0,
        ensures
            r@ == spec_render_table(str_views(self.header@), str_views(self.data@)),
    {
        let hviews = Ghost(str_views(self.header@));
        let dviews = Ghost(str_views(self.data@));
        let mh = max_len_of(&self.header);
        let md = max_len_of(&self.data);
        let longest = if mh > md {
            mh
        } else {
            md
        };
        proof {
            assert forall|i: int| 0 <= i < hviews@.len() implies #[trigger] hviews@[i].len()
                <= longest by {
                lemma_max_word_len_bound(hviews@, i);
            }
            assert forall|i: int| 0 <= i < dviews@.len() implies #[trigger] dviews@[i].len()
                <= longest by {
                lemma_max_word_len_bound(dviews@, i);
            }
        }
        let mut out = String::new();
        let hn = self.header.len();
        let mut k: usize = 0;
        proof {
            assert(hviews@.subrange(0, 0) =~= Seq::<Seq<char>>::empty());
            assert(out@ =~= render_words(hviews@.subrange(0, 0), longest as nat));
        }
        while k < hn
            invariant
                k <= hn,
                hn == self.header@.len(),
                hviews@ == str_views(self.header@),
                forall|i: int| 0 <= i < hn ==> #[trigger] hviews@[i].len() <= longest,
                out@ == render_words(hviews@.subrange(0, k as int), longest as nat),
            decreases hn - k,
        {
            proof {
                assert(hviews@[k as int] == self.header@[k as int]@);
                assert(hviews@[k as int].len() <= longest);
            }
            push_padded(&mut out, &self.header[k], longest);
            proof {
                assert(hviews@.subrange(0, k as int + 1).drop_last() =~= hviews@.subrange(
                    0,
                    k as int,
                ));
                assert(out@ =~= render_words(hviews@.subrange(0, k as int + 1), longest as nat));
            }
            k = k + 1;
        }
        proof {
            assert(hviews@.subrange(0, hn as int) =~= hviews@);
        }
        push_char(&mut out, '\n');
        proof {
            reveal_strlit("\n");
            assert("\n"@ =~= seq!['\n']);
            assert(dviews@.subrange(0, 0) =~= Seq::<Seq<char>>::empty());
            assert(out@ =~= render_words(hviews@, longest as nat) + "\n"@ + render_data(
                dviews@.subrange(0, 0),
                longest as nat,
                hn as nat,
            ));
        }
        let dn = self.data.len();
        let mut j: usize = 0;
        while j < dn
            invariant
                j <= dn,
                dn == self.data@.len(),
                0 < hn == self.header@.len(),
                hviews@ == str_views(self.header@),
                dviews@ == str_views(self.data@),
                forall|i: int| 0 <= i < dn ==> #[trigger] dviews@[i].len() <= longest,
                out@ == render_words(hviews@, longest as nat) + "\n"@ + render_data(
                    dviews@.subrange(0, j as int),
                    longest as nat,
                    hn as nat,
                ),
            decreases dn - j,
        {
            proof {
                assert(dviews@[j as int] == self.data@[j as int]@);
                assert(dviews@[j as int].len() <= longest);
            }
            push_padded(&mut out, &self.data[j], longest);
            if (j + 1) % hn == 0 {
                push_char(&mut out, '\n');
            }
            proof {
                reveal_strlit("\n");
                assert("\n"@ =~= seq!['\n']);
                assert(dviews@.subrange(0, j as int + 1).drop_last() =~= dviews@.subrange(
                    0,
                    j as int,
                ));
                assert(out@ =~= render_words(hviews@, longest as nat) + "\n"@ + render_data(
                    dviews@.subrange(0, j as int + 1),
                    longest as nat,
                    hn as nat,
                ));
            }
            j = j + 1;
        }
        proof {
            assert(dviews@.subrange(0, dn as int) =~= dviews@);
        }
        out
    }
}

/// Every cell is at most as long as the longest cell.
proof fn lemma_max_word_len_bound(words: Seq<Seq<char>>, i: int)
    requires
        0 <= i < words.len(),
    ensures
        words[i].len() <= max_word_len(words),
    decreases words.len(),
{
    if i < words.len() - 1 {
        lemma_max_word_len_bound(words.drop_last(), i);
        assert(words.drop_last()[i] == words[i]);
    }
}

/// Every split yields at least one piece.
proof fn lemma_split_on_nonempty(s: Seq<char>, sep: char)
    ensures
        split_on(s, sep).len() >= 1,
{
}

/// Every line contributes at least one data cell.
proof fn lemma_data_words_at_least(ls: Seq<Seq<char>>)
    ensures
        spec_data_words(ls).len() >= ls.len(),
    decreases ls.len(),
{
    if ls.len() > 0 {
        lemma_data_words_at_least(ls.drop_last());
        lemma_split_on_nonempty(ls.last(), ',');
    }
}

/// Parses `content` as a comma-separated table and renders it with fixed
/// columns, provided the command argument really is `csv`. The table must
/// have at least a header line and one data line.
pub fn csv(argm: &String, content: &String) -> (r: Result<String, String>)
    requires
        argm@ == "csv"@ ==> split_lines(content@).len() >= 2,
    ensures
        match r {
            Ok(out) => argm@ == "csv"@ && ({
                let lines = split_lines(content@);
                out@ == spec_render_table(
                    split_on(lines[0], ','),
                    spec_data_words(lines.skip(1)),
                )
            }),
            Err(e) => argm@ != "csv"@ && e@ == crate::textutil::spec_wrong_command_text(
                "csv"@,
                argm@,
            ),
        },
{
    if !str_eq(argm.as_str(), "csv") {
        return Err(crate::textutil::wrong_command_text("csv", argm));
    }
    let table = read_csv(content.as_str());
    proof {
        lemma_split_on_nonempty(split_lines(content@)[0], ',');
        lemma_data_words_at_least(split_lines(content@).skip(1));
    }
    Ok(table.render())
}

} // verus!
