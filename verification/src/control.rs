//! The control prompt: reading a command line into a command.
use vstd::prelude::*;
use crate::text::push_char;

verus! {

/// Unicode white space, the characters `char::is_whitespace` accepts.
pub open spec fn is_ws(c: char) -> bool {
    let n = c as u32;
    (0x9 <= n <= 0xd) || n == 0x20 || n == 0x85 || n == 0xa0 || n == 0x1680 || (0x2000 <= n <= 0x200a)
        || n == 0x2028 || n == 0x2029 || n == 0x202f || n == 0x205f || n == 0x3000
}

/// The index of the first character that is not white space.
pub open spec fn first_non_ws(s: Seq<char>) -> int
    decreases s.len(),
{
    if s.len() == 0 {
        0
    } else if is_ws(s[0]) {
        1 + first_non_ws(s.drop_first())
    } else {
        0
    }
}

/// One past the index of the last character that is not white space.
pub open spec fn end_non_ws(s: Seq<char>) -> int
    decreases s.len(),
{
    if s.len() == 0 {
        0
    } else if is_ws(s.last()) {
        end_non_ws(s.drop_last())
    } else {
        s.len() as int
    }
}

/// `s` without leading and trailing white space.
pub open spec fn trim(s: Seq<char>) -> Seq<char> {
    if first_non_ws(s) >= end_non_ws(s) {
        Seq::empty()
    } else {
        s.subrange(first_non_ws(s), end_non_ws(s))
    }
}

pub open spec fn starts_with(s: Seq<char>, p: Seq<char>) -> bool {
    p.len() <= s.len() && s.subrange(0, p.len() as int) == p
}

/// `s` with every leading repetition of the non-empty prefix `p` removed.
pub open spec fn strip_prefixes(s: Seq<char>, p: Seq<char>) -> Seq<char>
    decreases s.len(),
{
    if p.len() > 0 && starts_with(s, p) {
        strip_prefixes(s.skip(p.len() as int), p)
    } else {
        s
    }
}

pub open spec fn commit_word() -> Seq<char> {
    seq!['c', 'o', 'm', 'm', 'i', 't', ' ']
}

pub open spec fn sql_word() -> Seq<char> {
    seq!['s', 'q', 'l', ' ']
}

pub open spec fn checkout_word() -> Seq<char> {
    seq!['c', 'h', 'e', 'c', 'k', 'o', 'u', 't', ' ']
}

pub open spec fn revert_word() -> Seq<char> {
    seq!['r', 'e', 'v', 'e', 'r', 't']
}

pub open spec fn reset_word() -> Seq<char> {
    seq!['r', 'e', 's', 'e', 't']
}

pub open spec fn help_word() -> Seq<char> {
    seq!['h', 'e', 'l', 'p']
}

/// A command of the control prompt.
#[derive(Debug)]
pub enum Command {
    /// `commit <name>`: freeze the active layer as `name`.
    Commit(String),
    /// A `commit` line with nothing after the word. `parse_command` never
    /// gives it: the line is trimmed first, so `commit ` followed by white
    /// space alone is `commit` without its space, an `Unknown` line.
    CommitNameMissing,
    /// `sql <query>`: run a query against the store.
    Sql(String),
    /// A `sql` line with nothing after the word. `parse_command` never
    /// gives it: the line is trimmed first, so `sql ` followed by white
    /// space alone is `sql` without its space, an `Unknown` line.
    SqlQueryMissing,
    /// `checkout <name>`: travel back to layer `name`, or `latest`.
    Checkout(String),
    /// A `checkout` line with nothing after the word. `parse_command` never
    /// gives it: the line is trimmed first, so `checkout ` followed by white
    /// space alone is `checkout` without its space, an `Unknown` line.
    CheckoutNameMissing,
    /// `revert`: discard uncommitted changes.
    Revert,
    /// `reset`: wipe everything, after confirmation.
    Reset,
    /// `help`: list the commands.
    Help,
    /// Any other non-blank line.
    Unknown,
    /// A blank line.
    Empty,
}

pub enum CommandView {
    Commit(Seq<char>),
    CommitNameMissing,
    Sql(Seq<char>),
    SqlQueryMissing,
    Checkout(Seq<char>),
    CheckoutNameMissing,
    Revert,
    Reset,
    Help,
    Unknown,
    Empty,
}

impl View for Command {
    type V = CommandView;

    open spec fn view(&self) -> CommandView {
        match self {
            Command::Commit(s) => CommandView::Commit(s@),
            Command::CommitNameMissing => CommandView::CommitNameMissing,
            Command::Sql(s) => CommandView::Sql(s@),
            Command::SqlQueryMissing => CommandView::SqlQueryMissing,
            Command::Checkout(s) => CommandView::Checkout(s@),
            Command::CheckoutNameMissing => CommandView::CheckoutNameMissing,
            Command::Revert => CommandView::Revert,
            Command::Reset => CommandView::Reset,
            Command::Help => CommandView::Help,
            Command::Unknown => CommandView::Unknown,
            Command::Empty => CommandView::Empty,
        }
    }
}

/// The argument of a command word: what follows every leading repetition
/// of the word, trimmed.
pub open spec fn argument(cmd: Seq<char>, word: Seq<char>) -> Seq<char> {
    trim(strip_prefixes(cmd, word))
}

/// The command a line stands for. The line is trimmed first; a command
/// word and its argument are separated by a space.
pub open spec fn spec_parse_command(line: Seq<char>) -> CommandView {
    let cmd = trim(line);
    if starts_with(cmd, commit_word()) {
        let a = argument(cmd, commit_word());
        if a.len() == 0 {
            CommandView::CommitNameMissing
        } else {
            CommandView::Commit(a)
        }
    } else if starts_with(cmd, sql_word()) {
        let a = argument(cmd, sql_word());
        if a.len() == 0 {
            CommandView::SqlQueryMissing
        } else {
            CommandView::Sql(a)
        }
    } else if starts_with(cmd, checkout_word()) {
        let a = argument(cmd, checkout_word());
        if a.len() == 0 {
            CommandView::CheckoutNameMissing
        } else {
            CommandView::Checkout(a)
        }
    } else if cmd == revert_word() {
        CommandView::Revert
    } else if cmd == reset_word() {
        CommandView::Reset
    } else if cmd == help_word() {
        CommandView::Help
    } else if cmd.len() > 0 {
        CommandView::Unknown
    } else {
        CommandView::Empty
    }
}

/// A reply confirms when, trimmed, it is `y` or `Y`.
pub open spec fn spec_confirms(line: Seq<char>) -> bool {
    trim(line) == seq!['y'] || trim(line) == seq!['Y']
}

/// Whether `c` is white space.
pub fn is_whitespace(c: char) -> (r: bool)
    ensures
        r == is_ws(c),
{
    let n = c as u32;
    (0x9 <= n && n <= 0xd) || n == 0x20 || n == 0x85 || n == 0xa0 || n == 0x1680 || (0x2000 <= n && n
        <= 0x200a) || n == 0x2028 || n == 0x2029 || n == 0x202f || n == 0x205f || n == 0x3000
}

/// The characters of a string.
pub fn chars_of(s: &str) -> (r: Vec<char>)
    ensures
        r@ == s@,
{
    let n = s.unicode_len();
    let mut out: Vec<char> = Vec::new();
    let mut i: usize = 0;
    while i < n
        invariant
            n == s@.len(),
            i <= n,
            out@ == s@.subrange(0, i as int),
        decreases n - i,
    {
        out.push(s.get_char(i));
        proof {
            assert(out@ =~= s@.subrange(0, i + 1));
        }
        i = i + 1;
    }
    proof {
        assert(out@ =~= s@);
    }
    out
}

/// A string of the characters `cs[from..to]`.
pub fn string_of(cs: &Vec<char>, from: usize, to: usize) -> (r: String)
    requires
        from <= to <= cs@.len(),
    ensures
        r@ == cs@.subrange(from as int, to as int),
{
    let mut out = String::new();
    let mut i = from;
    while i < to
        invariant
            from <= i <= to <= cs@.len(),
            out@ == cs@.subrange(from as int, i as int),
        decreases to - i,
    {
        push_char(&mut out, cs[i]);
        proof {
            assert(out@ =~= cs@.subrange(from as int, i + 1));
        }
        i = i + 1;
    }
    out
}

proof fn lemma_first_non_ws(s: Seq<char>)
    ensures
        0 <= first_non_ws(s) <= s.len(),
        forall|i: int| 0 <= i < first_non_ws(s) ==> is_ws(#[trigger] s[i]),
        first_non_ws(s) < s.len() ==> !is_ws(s[first_non_ws(s)]),
    decreases s.len(),
{
    if s.len() > 0 && is_ws(s[0]) {
        lemma_first_non_ws(s.drop_first());
        assert forall|i: int| 0 <= i < first_non_ws(s) implies is_ws(#[trigger] s[i]) by {
            if i > 0 {
                assert(s[i] == s.drop_first()[i - 1]);
            }
        }
    }
}

proof fn lemma_end_non_ws(s: Seq<char>)
    ensures
        0 <= end_non_ws(s) <= s.len(),
        forall|i: int| end_non_ws(s) <= i < s.len() ==> is_ws(#[trigger] s[i]),
        end_non_ws(s) > 0 ==> !is_ws(s[end_non_ws(s) - 1]),
    decreases s.len(),
{
    if s.len() > 0 && is_ws(s.last()) {
        lemma_end_non_ws(s.drop_last());
        assert forall|i: int| end_non_ws(s) <= i < s.len() implies is_ws(#[trigger] s[i]) by {
            if i < s.len() - 1 {
                assert(s[i] == s.drop_last()[i]);
            }
        }
    }
}

proof fn lemma_first_non_ws_exact(s: Seq<char>, k: int)
    requires
        0 <= k <= s.len(),
        forall|i: int| 0 <= i < k ==> is_ws(#[trigger] s[i]),
        k < s.len() ==> !is_ws(s[k]),
    ensures
        first_non_ws(s) == k,
    decreases s.len(),
{
    if s.len() > 0 && k > 0 {
        assert(is_ws(s[0]));
        assert forall|i: int| 0 <= i < k - 1 implies is_ws(#[trigger] s.drop_first()[i]) by {
            assert(s.drop_first()[i] == s[i + 1]);
        }
        lemma_first_non_ws_exact(s.drop_first(), k - 1);
    }
}

proof fn lemma_end_non_ws_exact(s: Seq<char>, k: int)
    requires
        0 <= k <= s.len(),
        forall|i: int| k <= i < s.len() ==> is_ws(#[trigger] s[i]),
        k > 0 ==> !is_ws(s[k - 1]),
    ensures
        end_non_ws(s) == k,
    decreases s.len(),
{
    if s.len() > 0 && k < s.len() {
        assert(is_ws(s[s.len() - 1]));
        assert forall|i: int| k <= i < s.len() - 1 implies is_ws(#[trigger] s.drop_last()[i]) by {
            assert(s.drop_last()[i] == s[i]);
        }
        lemma_end_non_ws_exact(s.drop_last(), k);
    }
}

/// The bounds `(a, b)` of `cs[from..to]` with white space trimmed off.
pub fn trim_bounds(cs: &Vec<char>, from: usize, to: usize) -> (r: (usize, usize))
    requires
        from <= to <= cs@.len(),
    ensures
        from <= r.0 <= r.1 <= to,
        cs@.subrange(r.0 as int, r.1 as int) == trim(cs@.subrange(from as int, to as int)),
{
    let ghost s = cs@.subrange(from as int, to as int);
    let mut a = from;
    while a < to && is_whitespace(cs[a])
        invariant
            from <= a <= to <= cs@.len(),
            forall|i: int| from <= i < a ==> is_ws(#[trigger] cs@[i]),
        decreases to - a,
    {
        a = a + 1;
    }
    let mut b = to;
    while b > a && is_whitespace(cs[b - 1])
        invariant
            from <= a <= b <= to <= cs@.len(),
            forall|i: int| b <= i < to ==> is_ws(#[trigger] cs@[i]),
        decreases b - a,
    {
        b = b - 1;
    }
    proof {
        lemma_first_non_ws_exact(s, a - from);
        if a < b {
            lemma_end_non_ws_exact(s, b - from);
            assert(cs@.subrange(a as int, b as int) =~= s.subrange(a - from, b - from));
        } else {
            // Everything from `from` on is white space.
            assert forall|i: int| a - from <= i < s.len() implies is_ws(#[trigger] s[i]) by {
                assert(s[i] == cs@[from + i]);
            }
            lemma_end_non_ws(s);
            if end_non_ws(s) > a - from {
                assert(is_ws(s[end_non_ws(s) - 1]));
            }
            assert(cs@.subrange(a as int, b as int) =~= Seq::<char>::empty());
        }
    }
    (a, b)
}

/// Whether `cs[from..to]` starts with the characters of `p`.
pub fn has_prefix(cs: &Vec<char>, from: usize, to: usize, p: &str) -> (r: bool)
    requires
        from <= to <= cs@.len(),
    ensures
        r == starts_with(cs@.subrange(from as int, to as int), p@),
{
    let ghost s = cs@.subrange(from as int, to as int);
    let n = p.unicode_len();
    if n > to - from {
        return false;
    }
    let mut i: usize = 0;
    while i < n
        invariant
            n == p@.len(),
            n <= to - from,
            from <= to <= cs@.len(),
            i <= n,
            forall|j: int| 0 <= j < i ==> cs@[from + j] == p@[j],
            s == cs@.subrange(from as int, to as int),
        decreases n - i,
    {
        if cs[from + i] != p.get_char(i) {
            proof {
                assert(s.subrange(0, n as int)[i as int] != p@[i as int]);
            }
            return false;
        }
        i = i + 1;
    }
    proof {
        assert(s.subrange(0, n as int) =~= p@);
    }
    true
}

/// Whether `cs[from..to]` is exactly the characters of `p`.
pub fn is_exactly(cs: &Vec<char>, from: usize, to: usize, p: &str) -> (r: bool)
    requires
        from <= to <= cs@.len(),
    ensures
        r == (cs@.subrange(from as int, to as int) == p@),
{
    if !has_prefix(cs, from, to, p) {
        proof {
            if cs@.subrange(from as int, to as int) == p@ {
                assert(cs@.subrange(from as int, to as int).subrange(0, p@.len() as int) =~= p@);
            }
        }
        return false;
    }
    let n = p.unicode_len();
    proof {
        if n == to - from {
            assert(cs@.subrange(from as int, to as int) =~= cs@.subrange(from as int, to as int).subrange(0, n as int));
        }
    }
    n == to - from
}

/// The argument of a command word in `cs[from..to]`, which starts with the
/// word: every leading repetition of the word is removed and the rest
/// trimmed.
fn argument_of(cs: &Vec<char>, from: usize, to: usize, word: &str) -> (r: String)
    requires
        from <= to <= cs@.len(),
        word@.len() > 0,
    ensures
        r@ == argument(cs@.subrange(from as int, to as int), word@),
{
    let n = word.unicode_len();
    let mut a = from;
    proof {
        assert(cs@.subrange(from as int, to as int) =~= cs@.subrange(a as int, to as int));
    }
    while has_prefix(cs, a, to, word)
        invariant
            from <= a <= to <= cs@.len(),
            n == word@.len(),
            n > 0,
            strip_prefixes(cs@.subrange(from as int, to as int), word@)
                == strip_prefixes(cs@.subrange(a as int, to as int), word@),
        decreases to - a,
    {
        proof {
            assert(cs@.subrange(a as int, to as int).skip(n as int) =~= cs@.subrange(a + n, to as int));
        }
        a = a + n;
    }
    let (x, y) = trim_bounds(cs, a, to);
    string_of(cs, x, y)
}

/// The command that a prompt line stands for.
pub fn parse_command(line: &str) -> (r: Command)
    ensures
        r@ == spec_parse_command(line@),
{
    let cs = chars_of(line);
    let (a, b) = trim_bounds(&cs, 0, cs.len());
    proof {
        assert(cs@.subrange(0, cs@.len() as int) =~= line@);
    }
    let commit = "commit ";
    let sql = "sql ";
    let checkout = "checkout ";
    let revert = "revert";
    let reset = "reset";
    let help = "help";
    proof {
        reveal_strlit("commit ");
        reveal_strlit("sql ");
        reveal_strlit("checkout ");
        reveal_strlit("revert");
        reveal_strlit("reset");
        reveal_strlit("help");
        assert(commit@ =~= commit_word());
        assert(sql@ =~= sql_word());
        assert(checkout@ =~= checkout_word());
        assert(revert@ =~= revert_word());
        assert(reset@ =~= reset_word());
        assert(help@ =~= help_word());
    }
    if has_prefix(&cs, a, b, commit) {
        let name = argument_of(&cs, a, b, commit);
        if name.as_str().unicode_len() == 0 {
            Command::CommitNameMissing
        } else {
            Command::Commit(name)
        }
    } else if has_prefix(&cs, a, b, sql) {
        let query = argument_of(&cs, a, b, sql);
        if query.as_str().unicode_len() == 0 {
            Command::SqlQueryMissing
        } else {
            Command::Sql(query)
        }
    } else if has_prefix(&cs, a, b, checkout) {
        let name = argument_of(&cs, a, b, checkout);
        if name.as_str().unicode_len() == 0 {
            Command::CheckoutNameMissing
        } else {
            Command::Checkout(name)
        }
    } else if is_exactly(&cs, a, b, revert) {
        Command::Revert
    } else if is_exactly(&cs, a, b, reset) {
        Command::Reset
    } else if is_exactly(&cs, a, b, help) {
        Command::Help
    } else if a < b {
        Command::Unknown
    } else {
        Command::Empty
    }
}

/// Whether a reply to the reset question confirms it.
pub fn confirms(line: &str) -> (r: bool)
    ensures
        r == spec_confirms(line@),
{
    let cs = chars_of(line);
    let (a, b) = trim_bounds(&cs, 0, cs.len());
    proof {
        assert(cs@.subrange(0, cs@.len() as int) =~= line@);
    }
    let lower = "y";
    let upper = "Y";
    proof {
        reveal_strlit("y");
        reveal_strlit("Y");
        assert(lower@ =~= seq!['y']);
        assert(upper@ =~= seq!['Y']);
    }
    is_exactly(&cs, a, b, lower) || is_exactly(&cs, a, b, upper)
}

} // verus!

verus! {

/// A name or query without surrounding white space trims to itself.
proof fn lemma_trim_plain(s: Seq<char>)
    requires
        s.len() > 0,
        !is_ws(s[0]),
        !is_ws(s.last()),
    ensures
        trim(s) == s,
{
    assert(first_non_ws(s) == 0);
    assert(end_non_ws(s) == s.len());
    assert(s.subrange(0, s.len() as int) =~= s);
}

/// A command word followed by an argument that has no surrounding white
/// space and does not itself start with the word reads as that argument.
proof fn lemma_word_argument(word: Seq<char>, arg: Seq<char>)
    requires
        word.len() > 0,
        !is_ws(word[0]),
        arg.len() > 0,
        !is_ws(arg[0]),
        !is_ws(arg.last()),
        !starts_with(arg, word),
    ensures
        trim(word + arg) == word + arg,
        starts_with(word + arg, word),
        argument(word + arg, word) == arg,
{
    let line = word + arg;
    assert(line[0] == word[0]);
    assert(line.last() == arg.last());
    lemma_trim_plain(line);
    assert(line.subrange(0, word.len() as int) =~= word);
    assert(line.skip(word.len() as int) =~= arg);
    assert(strip_prefixes(line, word) == strip_prefixes(arg, word));
    lemma_trim_plain(arg);
}

/// `commit <name>` reads as a commit named `<name>`, for a name without
/// surrounding white space that does not itself start with `commit `.
pub proof fn law_commit_command_parses(name: Seq<char>)
    requires
        name.len() > 0,
        !is_ws(name[0]),
        !is_ws(name.last()),
        !starts_with(name, commit_word()),
    ensures
        spec_parse_command(commit_word() + name) == CommandView::Commit(name),
{
    lemma_word_argument(commit_word(), name);
}

/// `sql <query>` reads as that query, for a query without surrounding white
/// space that does not itself start with `sql `.
pub proof fn law_sql_command_parses(query: Seq<char>)
    requires
        query.len() > 0,
        !is_ws(query[0]),
        !is_ws(query.last()),
        !starts_with(query, sql_word()),
    ensures
        spec_parse_command(sql_word() + query) == CommandView::Sql(query),
{
    lemma_word_argument(sql_word(), query);
    let line = sql_word() + query;
    assert(!starts_with(line, commit_word())) by {
        assert(line[0] == 's');
        if starts_with(line, commit_word()) {
            assert(line.subrange(0, 7)[0] == commit_word()[0]);
        }
    }
}

/// `checkout <name>` reads as a checkout of `<name>`, for a name without
/// surrounding white space that does not itself start with `checkout `.
pub proof fn law_checkout_command_parses(name: Seq<char>)
    requires
        name.len() > 0,
        !is_ws(name[0]),
        !is_ws(name.last()),
        !starts_with(name, checkout_word()),
    ensures
        spec_parse_command(checkout_word() + name) == CommandView::Checkout(name),
{
    lemma_word_argument(checkout_word(), name);
    let line = checkout_word() + name;
    assert(!starts_with(line, commit_word())) by {
        if starts_with(line, commit_word()) {
            assert(line.subrange(0, 7)[1] == commit_word()[1]);
        }
    }
    assert(!starts_with(line, sql_word())) by {
        if starts_with(line, sql_word()) {
            assert(line.subrange(0, 4)[0] == sql_word()[0]);
        }
    }
}

} // verus!
