//! The client-side command tokenizer: one structured command per input
//! line, produced before any path or payload handling. A line starting
//! with a dot is a command; anything else is chat text.

use vstd::prelude::*;

verus! {

/// One parsed input line.
#[derive(Debug)]
pub enum ClientCommand {
    /// `.file <path>`: send the file at this path.
    SendFile(String),
    /// `.image <path>`: send the image at this path.
    SendImage(String),
    /// `.quit`: leave.
    Quit,
    /// `.login <username>`.
    Login(String),
    /// `.register <username>`.
    Register(String),
    /// Not a command: a chat line.
    SendText(String),
    /// A dot line that is no known command, or a command missing its
    /// argument.
    Invalid,
}

/// The mathematical shape of a parsed input line.
pub enum ClientCommandView {
    SendFile(Seq<char>),
    SendImage(Seq<char>),
    Quit,
    Login(Seq<char>),
    Register(Seq<char>),
    SendText(Seq<char>),
    Invalid,
}

impl View for ClientCommand {
    type V = ClientCommandView;

    open spec fn view(&self) -> ClientCommandView {
        match self {
            ClientCommand::SendFile(p) => ClientCommandView::SendFile(p@),
            ClientCommand::SendImage(p) => ClientCommandView::SendImage(p@),
            ClientCommand::Quit => ClientCommandView::Quit,
            ClientCommand::Login(u) => ClientCommandView::Login(u@),
            ClientCommand::Register(u) => ClientCommandView::Register(u@),
            ClientCommand::SendText(t) => ClientCommandView::SendText(t@),
            ClientCommand::Invalid => ClientCommandView::Invalid,
        }
    }
}

/// The characters before the first blank: the command token of a line.
pub open spec fn token_end(s: Seq<char>) -> int
    decreases s.len(),
{
    if s.len() == 0 || s[0] == ' ' {
        0
    } else {
        1 + token_end(s.drop_first())
    }
}

/// The token ends at the first blank, or at the end of the line.
proof fn lemma_token_end(s: Seq<char>, k: int)
    requires
        0 <= k <= s.len(),
        forall|i: int| 0 <= i < k ==> s[i] != ' ',
        k == s.len() || s[k] == ' ',
    ensures
        token_end(s) == k,
    decreases s.len(),
{
    if k > 0 {
        let rest = s.drop_first();
        assert(forall|i: int| 0 <= i < k - 1 ==> rest[i] == s[i + 1]);
        lemma_token_end(rest, k - 1);
    }
}

/// `s` without leading blanks.
pub open spec fn trim_left(s: Seq<char>) -> Seq<char>
    decreases s.len(),
{
    if s.len() > 0 && s[0] == ' ' {
        trim_left(s.drop_first())
    } else {
        s
    }
}

/// `s` without trailing blanks.
pub open spec fn trim_right(s: Seq<char>) -> Seq<char>
    decreases s.len(),
{
    if s.len() > 0 && s.last() == ' ' {
        trim_right(s.drop_last())
    } else {
        s
    }
}

/// `s` without surrounding blanks.
pub open spec fn trim_spaces(s: Seq<char>) -> Seq<char> {
    trim_right(trim_left(s))
}

/// Strips surrounding blanks from a slice of `s`.
fn trim_range(s: &str, from: usize, to: usize) -> (r: String)
    requires
        from <= to <= s@.len(),
    ensures
        r@ == trim_spaces(s@.subrange(from as int, to as int)),
{
    let mut a = from;
    while a < to && s.get_char(a) == ' '
        invariant
            from <= a <= to <= s@.len(),
            trim_left(s@.subrange(a as int, to as int)) == trim_left(
                s@.subrange(from as int, to as int),
            ),
        decreases to - a,
    {
        proof {
            assert(s@.subrange(a as int, to as int).drop_first() =~= s@.subrange(
                a as int + 1,
                to as int,
            ));
        }
        a = a + 1;
    }
    proof {
        assert(trim_left(s@.subrange(a as int, to as int)) == s@.subrange(a as int, to as int));
    }
    let mut b = to;
    while b > a && s.get_char(b - 1) == ' '
        invariant
            a <= b <= to <= s@.len(),
            trim_right(s@.subrange(a as int, b as int)) == trim_right(
                s@.subrange(a as int, to as int),
            ),
        decreases b - a,
    {
        proof {
            assert(s@.subrange(a as int, b as int).drop_last() =~= s@.subrange(
                a as int,
                b as int - 1,
            ));
        }
        b = b - 1;
    }
    proof {
        assert(trim_right(s@.subrange(a as int, b as int)) == s@.subrange(a as int, b as int));
    }
    let piece = s.substring_char(a, b);
    String::from_str(piece)
}

/// What each input line means. A line that does not start with a dot is
/// chat text, sent as it stands. A dot line is a command: its token — the
/// characters before the first blank — must be one of `.file`, `.image`,
/// `.quit`, `.login`, `.register`, and all but `.quit` need an argument,
/// the rest of the line with surrounding blanks stripped. A dot line whose
/// token is no such command, or whose argument is missing, is invalid.
pub open spec fn spec_parse_input(s: Seq<char>) -> ClientCommandView {
    if s.len() == 0 || s[0] != '.' {
        ClientCommandView::SendText(s)
    } else {
        let tok = s.subrange(0, token_end(s));
        if tok == ".quit"@ {
            ClientCommandView::Quit
        } else if tok == ".file"@ {
            if s.len() <= 6 {
                ClientCommandView::Invalid
            } else {
                ClientCommandView::SendFile(trim_spaces(s.subrange(6, s.len() as int)))
            }
        } else if tok == ".image"@ {
            if s.len() <= 7 {
                ClientCommandView::Invalid
            } else {
                ClientCommandView::SendImage(trim_spaces(s.subrange(7, s.len() as int)))
            }
        } else if tok == ".login"@ {
            if s.len() <= 7 {
                ClientCommandView::Invalid
            } else {
                ClientCommandView::Login(trim_spaces(s.subrange(7, s.len() as int)))
            }
        } else if tok == ".register"@ {
            if s.len() <= 10 {
                ClientCommandView::Invalid
            } else {
                ClientCommandView::Register(trim_spaces(s.subrange(10, s.len() as int)))
            }
        } else {
            ClientCommandView::Invalid
        }
    }
}

/// Parses one input line into its command.
pub fn parse_input_line(line: &str) -> (r: ClientCommand)
    ensures
        r@ == spec_parse_input(line@),
{
    let n = line.unicode_len();
    if n == 0 || line.get_char(0) != '.' {
        return ClientCommand::SendText(String::from_str(line));
    }
    let mut t: usize = 0;
    while t < n && line.get_char(t) != ' '
        invariant
            t <= n,
            n == line@.len(),
            forall|i: int| 0 <= i < t ==> line@[i] != ' ',
        decreases n - t,
    {
        t = t + 1;
    }
    proof {
        lemma_token_end(line@, t as int);
    }
    let tok = line.substring_char(0, t);
    proof {
        reveal_strlit(".quit");
        reveal_strlit(".file");
        reveal_strlit(".image");
        reveal_strlit(".login");
        reveal_strlit(".register");
    }
    if crate::wire::str_eq(tok, ".quit") {
        ClientCommand::Quit
    } else if crate::wire::str_eq(tok, ".file") {
        if n <= 6 {
            ClientCommand::Invalid
        } else {
            ClientCommand::SendFile(trim_range(line, 6, n))
        }
    } else if crate::wire::str_eq(tok, ".image") {
        if n <= 7 {
            ClientCommand::Invalid
        } else {
            ClientCommand::SendImage(trim_range(line, 7, n))
        }
    } else if crate::wire::str_eq(tok, ".login") {
        if n <= 7 {
            ClientCommand::Invalid
        } else {
            ClientCommand::Login(trim_range(line, 7, n))
        }
    } else if crate::wire::str_eq(tok, ".register") {
        if n <= 10 {
            ClientCommand::Invalid
        } else {
            ClientCommand::Register(trim_range(line, 10, n))
        }
    } else {
        ClientCommand::Invalid
    }
}

} // verus!
