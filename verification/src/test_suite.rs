use vstd::prelude::*;
use crate::text::{chars_of, push_char};

verus! {

/// What a line of a test suite asks of the engine's move: to be the best move (`bm`) or to
/// avoid a move (`am`).
#[derive(Clone, Copy, Debug, PartialEq, Eq, Structural)]
pub enum CommandType {
    Bm,
    Am,
}

/// Whether `pat` occurs in `s` at character `i`.
pub open spec fn occurs_at(s: Seq<char>, pat: Seq<char>, i: int) -> bool {
    0 <= i && i + pat.len() <= s.len() && s.subrange(i, i + pat.len()) == pat
}

/// Whether `pat` occurs in `s`.
pub open spec fn occurs(s: Seq<char>, pat: Seq<char>) -> bool {
    exists|i: int| #[trigger] occurs_at(s, pat, i)
}

/// The first place where a text occurs in another, by character; none when it does not.
pub fn find_text(line: &str, pat: &str) -> (r: Option<usize>)
    ensures
        match r {
            Some(i) => occurs_at(line@, pat@, i as int) && forall|j: int| 0 <= j < i ==> !#[trigger] occurs_at(line@, pat@, j),
            None => !occurs(line@, pat@),
        },
{
    let s = chars_of(line);
    let p = chars_of(pat);
    let n = s.len();
    let m = p.len();
    if m > n {
        proof {
            assert forall|j: int| !#[trigger] occurs_at(line@, pat@, j) by {}
        }
        return None;
    }
    let mut i: usize = 0;
    let mut more = true;
    while more
        invariant
            s@ == line@,
            p@ == pat@,
            n == s@.len(),
            m == p@.len(),
            m <= n,
            i <= n - m,
            forall|j: int| 0 <= j < i ==> !#[trigger] occurs_at(line@, pat@, j),
            !more ==> forall|j: int| 0 <= j <= i ==> !#[trigger] occurs_at(line@, pat@, j),
            !more ==> i == n - m,
        decreases n - m - i + if more { 1int } else { 0 },
    {
        let mut k: usize = 0;
        let mut same = true;
        while k < m && same
            invariant
                s@ == line@,
                p@ == pat@,
                n == s@.len(),
                m == p@.len(),
                i + m <= n,
                k <= m,
                same ==> forall|q: int| 0 <= q < k ==> s@[i + q] == p@[q],
                !same ==> !occurs_at(line@, pat@, i as int),
            decreases m - k + if same { 1int } else { 0 },
        {
            if s[i + k] != p[k] {
                same = false;
                proof {
                    if occurs_at(line@, pat@, i as int) {
                        assert(line@.subrange(i as int, i + m)[k as int] == pat@[k as int]);
                    }
                }
            } else {
                k = k + 1;
            }
        }
        if same {
            assert(line@.subrange(i as int, i + m) =~= pat@);
            return Some(i);
        }
        if i == n - m {
            more = false;
        } else {
            i = i + 1;
        }
    }
    proof {
        assert forall|j: int| !#[trigger] occurs_at(line@, pat@, j) by {
            if 0 <= j && j <= i {
            }
        }
    }
    None
}

/// The command of a suite line and where it starts: `bm` where the line holds it, else
/// `am`. The line must hold one of them.
pub fn get_command_pos(line: &str) -> (r: (CommandType, usize))
    requires
        occurs(line@, "bm"@) || occurs(line@, "am"@),
    ensures
        occurs(line@, "bm"@) ==> r.0 == CommandType::Bm && occurs_at(line@, "bm"@, r.1 as int) && forall|j: int|
            0 <= j < r.1 ==> !#[trigger] occurs_at(line@, "bm"@, j),
        !occurs(line@, "bm"@) ==> r.0 == CommandType::Am && occurs_at(line@, "am"@, r.1 as int) && forall|j: int|
            0 <= j < r.1 ==> !#[trigger] occurs_at(line@, "am"@, j),
{
    match find_text(line, "bm") {
        Some(pos) => (CommandType::Bm, pos),
        None => match find_text(line, "am") {
            Some(pos) => (CommandType::Am, pos),
            None => (CommandType::Am, 0),
        },
    }
}

/// The characters of `s` from `start` up to (not including) `end`.
fn copy_range(s: &Vec<char>, start: usize, end: usize) -> (r: String)
    requires
        start <= end <= s@.len(),
    ensures
        r@ == s@.subrange(start as int, end as int),
{
    let mut r = String::new();
    let mut i = start;
    while i < end
        invariant
            start <= i <= end <= s@.len(),
            r@ == s@.subrange(start as int, i as int),
        decreases end - i,
    {
        push_char(&mut r, s[i]);
        assert(s@.subrange(start as int, i + 1) =~= s@.subrange(start as int, i as int).push(s@[i as int]));
        i = i + 1;
    }
    r
}

/// The text of a command: after its first space, without its last two characters (the `;`
/// and the space that close it). The command must hold a space with two more characters
/// after it.
pub fn trim_command(cmd: String) -> (r: String)
    requires
        exists|i: int| #[trigger] occurs_at(cmd@, " "@, i) && i + 3 <= cmd@.len()
            && forall|j: int| 0 <= j < i ==> !#[trigger] occurs_at(cmd@, " "@, j),
    ensures
        exists|i: int| #[trigger] occurs_at(cmd@, " "@, i) && (forall|j: int| 0 <= j < i ==> !#[trigger] occurs_at(cmd@, " "@, j))
            && r@ == cmd@.subrange(i + 1, cmd@.len() - 2),
{
    proof {
        reveal_strlit(" ");
    }
    trim_after(cmd, " ")
}

/// The text of an id: after its first double quote, without its last two characters (the
/// closing quote and `;`). The id must hold a double quote with two more characters after
/// it.
pub fn trim_id(id: String) -> (r: String)
    requires
        exists|i: int| #[trigger] occurs_at(id@, "\""@, i) && i + 3 <= id@.len()
            && forall|j: int| 0 <= j < i ==> !#[trigger] occurs_at(id@, "\""@, j),
    ensures
        exists|i: int| #[trigger] occurs_at(id@, "\""@, i) && (forall|j: int| 0 <= j < i ==> !#[trigger] occurs_at(id@, "\""@, j))
            && r@ == id@.subrange(i + 1, id@.len() - 2),
{
    proof {
        reveal_strlit("\"");
    }
    trim_after(id, "\"")
}

fn trim_after(text: String, mark: &str) -> (r: String)
    requires
        mark@.len() == 1,
        exists|i: int| #[trigger] occurs_at(text@, mark@, i) && i + 3 <= text@.len()
            && forall|j: int| 0 <= j < i ==> !#[trigger] occurs_at(text@, mark@, j),
    ensures
        exists|i: int| #[trigger] occurs_at(text@, mark@, i) && (forall|j: int| 0 <= j < i ==> !#[trigger] occurs_at(text@, mark@, j))
            && r@ == text@.subrange(i + 1, text@.len() - 2),
{
    let found = find_text(text.as_str(), mark);
    let ghost w = choose|i: int| #[trigger] occurs_at(text@, mark@, i) && i + 3 <= text@.len()
        && forall|j: int| 0 <= j < i ==> !#[trigger] occurs_at(text@, mark@, j);
    match found {
        Some(pos) => {
            proof {
                if pos < w {
                    assert(!occurs_at(text@, mark@, pos as int));
                }
                if w < pos {
                    assert(!occurs_at(text@, mark@, w));
                }
                assert(pos == w);
            }
            let chars = chars_of(text.as_str());
            let len = chars.len();
            let r = copy_range(&chars, pos + 1, len - 2);
            r
        },
        None => {
            assert(occurs_at(text@, mark@, w));
            String::new()
        },
    }
}

/// Whether the engine's move (in algebraic notation) passes a suite line: it is the best
/// move named, or it is not the move to avoid.
pub fn test_passes(command: CommandType, san: &str, command_str: &str) -> (r: bool)
    ensures
        r == match command {
            CommandType::Bm => san@ == command_str@,
            CommandType::Am => san@ != command_str@,
        },
{
    let same = crate::text::same_text(san, command_str);
    match command {
        CommandType::Bm => same,
        CommandType::Am => !same,
    }
}

} // verus!
