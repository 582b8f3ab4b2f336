//! Frontend-agnostic slash-command registry and prediction.
//!
//! A `Command` is the canonical definition of a `/xxx` slash command: its
//! canonical name, aliases, usage string (with argument placeholder), and a
//! short description. `commands()` is the single source of truth; `suggest`
//! turns a partial `/` input into matching commands (predictive hint), and
//! `find` resolves an exact spelling to its command.
pub mod fuzzy;

use vstd::prelude::*;
use crate::text::{all_digits, chars_of, eq_chars, prefix_of, starts_with_chars, strs, sub_chars, trim, trim_chars};

verus! {

broadcast use vstd::seq_lib::group_seq_properties;

/// How a command matches input.
#[derive(Clone, Copy, Debug, PartialEq, Eq)]
pub enum CommandKind {
    /// Matches its canonical name or one of its aliases (exact / prefix).
    Exact,
    /// Matches `name` or `name` followed by a digit sequence (e.g. `/!3`).
    Numbered,
}

/// A slash command known to an interactive frontend.
#[derive(Clone, Copy, Debug)]
pub struct Command {
    pub name: &'static str,
    pub aliases: &'static [&'static str],
    /// Display form, argument placeholder included (e.g. `/load <id>`).
    pub usage: &'static str,
    pub description: &'static str,
    pub kind: CommandKind,
}

/// The mathematical value of a command.
pub ghost struct CommandSpec {
    pub name: Seq<char>,
    pub aliases: Seq<Seq<char>>,
    pub usage: Seq<char>,
    pub description: Seq<char>,
    pub kind: CommandKind,
}

pub open spec fn cview(c: Command) -> CommandSpec {
    CommandSpec {
        name: c.name@,
        aliases: strs(c.aliases@),
        usage: c.usage@,
        description: c.description@,
        kind: c.kind,
    }
}

pub open spec fn cviews(cs: Seq<Command>) -> Seq<CommandSpec> {
    cs.map_values(|c: Command| cview(c))
}

/// Every spelling of a command: the canonical name first, then the aliases.
pub open spec fn spec_spellings(c: CommandSpec) -> Seq<Seq<char>> {
    seq![c.name] + c.aliases
}

impl Command {
    /// An exact command with no aliases.
    pub fn new(name: &'static str, usage: &'static str, description: &'static str) -> (c: Self)
        ensures
            cview(c) == (CommandSpec {
                name: name@,
                aliases: Seq::empty(),
                usage: usage@,
                description: description@,
                kind: CommandKind::Exact,
            }),
    {
        let c = Command { name, aliases: &[], usage, description, kind: CommandKind::Exact };
        assert(strs(c.aliases@) =~= Seq::<Seq<char>>::empty());
        c
    }

    /// An exact command with aliases.
    pub fn aliased(
        name: &'static str,
        aliases: &'static [&'static str],
        usage: &'static str,
        description: &'static str,
    ) -> (c: Self)
        ensures
            cview(c) == (CommandSpec {
                name: name@,
                aliases: strs(aliases@),
                usage: usage@,
                description: description@,
                kind: CommandKind::Exact,
            }),
    {
        Command { name, aliases, usage, description, kind: CommandKind::Exact }
    }

    /// A numbered command: matches `name` or `name` plus digits.
    pub fn numbered(name: &'static str, usage: &'static str, description: &'static str) -> (c: Self)
        ensures
            cview(c) == (CommandSpec {
                name: name@,
                aliases: Seq::empty(),
                usage: usage@,
                description: description@,
                kind: CommandKind::Numbered,
            }),
    {
        let c = Command { name, aliases: &[], usage, description, kind: CommandKind::Numbered };
        assert(strs(c.aliases@) =~= Seq::<Seq<char>>::empty());
        c
    }

    /// All spellings that resolve to this command: canonical name first, then
    /// aliases.
    pub fn spellings(&self) -> (r: Vec<&'static str>)
        ensures
            strs(r@) == spec_spellings(cview(*self)),
    {
        let mut r: Vec<&'static str> = Vec::new();
        r.push(self.name);
        let mut i: usize = 0;
        while i < self.aliases.len()
            invariant
                i <= self.aliases@.len(),
                strs(r@) == seq![self.name@] + strs(self.aliases@).subrange(0, i as int),
            decreases self.aliases.len() - i,
        {
            let ghost before = r@;
            r.push(self.aliases[i]);
            assert(strs(r@) == strs(before).push(self.aliases@[i as int]@));
            i = i + 1;
        }
        assert(strs(self.aliases@).subrange(0, self.aliases@.len() as int) == strs(self.aliases@));
        r
    }
}


pub open spec fn exact_cmd(name: Seq<char>, usage: Seq<char>, description: Seq<char>) -> CommandSpec {
    CommandSpec { name, aliases: Seq::empty(), usage, description, kind: CommandKind::Exact }
}

/// The canonical command registry.
pub open spec fn registry() -> Seq<CommandSpec> {
    seq![
        exact_cmd("/help"@, "/help"@, "list commands"@),
        exact_cmd("/new"@, "/new"@, "start a new session"@),
        CommandSpec {
            name: "/load"@,
            aliases: seq!["/resume"@],
            usage: "/load <id>"@,
            description: "load a saved session"@,
            kind: CommandKind::Exact,
        },
        exact_cmd("/sessions"@, "/sessions"@, "list saved sessions"@),
        exact_cmd("/usage"@, "/usage"@, "show token usage"@),
        exact_cmd("/history"@, "/history"@, "list input history"@),
        exact_cmd("/skills"@, "/skills"@, "list installed skills"@),
        exact_cmd(
            "/install-skill"@,
            "/install-skill <path> --user|--project"@,
            "install a skill (user or project scope)"@,
        ),
        exact_cmd("/!!"@, "/!!"@, "rerun the most recent prompt"@),
        CommandSpec {
            name: "/!"@,
            aliases: Seq::empty(),
            usage: "/!N"@,
            description: "rerun history entry N (1 = newest)"@,
            kind: CommandKind::Numbered,
        },
        CommandSpec {
            name: "/exit"@,
            aliases: seq!["/quit"@],
            usage: "/exit"@,
            description: "quit the TUI"@,
            kind: CommandKind::Exact,
        },
    ]
}

/// The canonical command registry, in display order.
pub fn commands() -> (r: Vec<Command>)
    ensures
        cviews(r@) == registry(),
{
    let mut r: Vec<Command> = Vec::new();
    r.push(Command::new("/help", "/help", "list commands"));
    r.push(Command::new("/new", "/new", "start a new session"));
    let load_aliases: &'static [&'static str] = &["/resume"];
    assert(strs(load_aliases@) == seq!["/resume"@]);
    r.push(Command::aliased("/load", load_aliases, "/load <id>", "load a saved session"));
    r.push(Command::new("/sessions", "/sessions", "list saved sessions"));
    r.push(Command::new("/usage", "/usage", "show token usage"));
    r.push(Command::new("/history", "/history", "list input history"));
    r.push(Command::new("/skills", "/skills", "list installed skills"));
    r.push(
        Command::new(
            "/install-skill",
            "/install-skill <path> --user|--project",
            "install a skill (user or project scope)",
        ),
    );
    r.push(Command::new("/!!", "/!!", "rerun the most recent prompt"));
    r.push(Command::numbered("/!", "/!N", "rerun history entry N (1 = newest)"));
    let exit_aliases: &'static [&'static str] = &["/quit"];
    assert(strs(exit_aliases@) == seq!["/quit"@]);
    r.push(Command::aliased("/exit", exit_aliases, "/exit", "quit the TUI"));
    assert(cviews(r@) =~= registry());
    r
}


/// Does `input` match this command under its kind's rules?
pub open spec fn spec_command_matches(c: CommandSpec, input: Seq<char>) -> bool {
    match c.kind {
        CommandKind::Exact => exists|k: int|
            0 <= k < spec_spellings(c).len() && prefix_of(input, #[trigger] spec_spellings(c)[k]),
        CommandKind::Numbered => prefix_of(input, c.name) || (prefix_of(c.name, input) && all_digits(
            input.subrange(c.name.len() as int, input.len() as int),
        )),
    }
}

/// The commands of `cs` that match `input`, in order.
pub open spec fn matching(cs: Seq<CommandSpec>, input: Seq<char>) -> Seq<CommandSpec>
    decreases cs.len(),
{
    if cs.len() == 0 {
        cs
    } else if spec_command_matches(cs.last(), input) {
        matching(cs.drop_last(), input).push(cs.last())
    } else {
        matching(cs.drop_last(), input)
    }
}

/// The first command of `cs` (from `k`) one of whose spellings is `input`.
pub open spec fn first_spelled(cs: Seq<CommandSpec>, input: Seq<char>, k: nat) -> Option<CommandSpec>
    decreases cs.len() - k,
{
    if k >= cs.len() {
        None
    } else if spec_spellings(cs[k as int]).contains(input) {
        Some(cs[k as int])
    } else {
        first_spelled(cs, input, k + 1)
    }
}

fn str_eq(a: &str, b: &[char]) -> (r: bool)
    ensures
        r == (a@ == b@),
{
    eq_chars(&chars_of(a), b)
}

/// Does `input` match `c` under its kind's rules?
fn command_matches(c: &Command, input: &[char]) -> (r: bool)
    ensures
        r == spec_command_matches(cview(*c), input@),
{
    match c.kind {
        CommandKind::Exact => {
            let sp = c.spellings();
            let mut k: usize = 0;
            while k < sp.len()
                invariant
                    k <= sp@.len(),
                    c.kind == CommandKind::Exact,
                    strs(sp@) == spec_spellings(cview(*c)),
                    forall|j: int| 0 <= j < k ==> !prefix_of(input@, #[trigger] spec_spellings(cview(*c))[j]),
                decreases sp.len() - k,
            {
                assert(spec_spellings(cview(*c))[k as int] == sp@[k as int]@);
                let spelling = chars_of(sp[k]);
                if starts_with_chars(&spelling, input) {
                    assert(prefix_of(input@, spec_spellings(cview(*c))[k as int]));
                    assert(spec_command_matches(cview(*c), input@));
                    return true;
                }
                k = k + 1;
            }
            false
        },
        CommandKind::Numbered => {
            let name = chars_of(c.name);
            if starts_with_chars(&name, input) {
                return true;
            }
            if !starts_with_chars(input, &name) {
                return false;
            }
            let mut i = name.len();
            while i < input.len()
                invariant
                    name@.len() <= i <= input@.len(),
                    name@ == c.name@,
                    c.kind == CommandKind::Numbered,
                    !prefix_of(input@, name@),
                    forall|j: int| name@.len() <= j < i ==> '0' <= #[trigger] input@[j] <= '9',
                decreases input.len() - i,
            {
                let ch = input[i];
                if !(ch >= '0' && ch <= '9') {
                    let ghost rest = input@.subrange(name@.len() as int, input@.len() as int);
                    assert(rest[i - name@.len()] == ch);
                    assert(!all_digits(rest));
                    return false;
                }
                i = i + 1;
            }
            assert(all_digits(input@.subrange(name@.len() as int, input@.len() as int)));
            true
        },
    }
}

/// Resolve an exact spelling (canonical name or alias) to its command.
pub fn find(input: &str) -> (r: Option<Command>)
    ensures
        match r {
            Some(c) => first_spelled(registry(), trim(input@), 0) == Some(cview(c)),
            None => first_spelled(registry(), trim(input@), 0) is None,
        },
{
    let trimmed = trim_chars(&chars_of(input));
    let cs = commands();
    let mut k: usize = 0;
    while k < cs.len()
        invariant
            k <= cs@.len(),
            cviews(cs@) == registry(),
            trimmed@ == trim(input@),
            first_spelled(registry(), trim(input@), 0) == first_spelled(registry(), trim(input@), k as nat),
        decreases cs.len() - k,
    {
        let c = cs[k];
        let sp = c.spellings();
        assert(registry()[k as int] == cview(c));
        let mut j: usize = 0;
        let mut hit = false;
        while j < sp.len()
            invariant
                j <= sp@.len(),
                strs(sp@) == spec_spellings(cview(c)),
                hit == exists|x: int| 0 <= x < j && #[trigger] strs(sp@)[x] == trimmed@,
            decreases sp.len() - j,
        {
            let same = str_eq(sp[j], &trimmed);
            assert(strs(sp@)[j as int] == sp@[j as int]@);
            if same {
                hit = true;
            }
            proof {
                assert forall|x: int| 0 <= x < j + 1 && #[trigger] strs(sp@)[x] == trimmed@ implies (x < j || same) by {}
            }
            j = j + 1;
        }
        if hit {
            assert(spec_spellings(cview(c)).contains(trimmed@));
            return Some(c);
        }
        k = k + 1;
    }
    None
}

/// Predict matching commands for a partial `/` input. A non-`/` input yields
/// no suggestions; `/` alone yields every command.
pub fn suggest(input: &str) -> (r: Vec<Command>)
    ensures
        cviews(r@) == (if prefix_of(seq!['/'], trim(input@)) {
            matching(registry(), trim(input@))
        } else {
            Seq::empty()
        }),
{
    let trimmed = trim_chars(&chars_of(input));
    let mut out: Vec<Command> = Vec::new();
    if !(trimmed.len() > 0 && trimmed[0] == '/') {
        assert(!prefix_of(seq!['/'], trim(input@))) by {
            if trimmed@.len() > 0 {
                assert(trimmed@.subrange(0, 1)[0] == trimmed@[0]);
            }
        }
        return out;
    }
    assert(prefix_of(seq!['/'], trim(input@))) by {
        assert(trimmed@.subrange(0, 1) =~= seq!['/']);
    }
    let cs = commands();
    let mut k: usize = 0;
    while k < cs.len()
        invariant
            k <= cs@.len(),
            cviews(cs@) == registry(),
            trimmed@ == trim(input@),
            cviews(out@) == matching(registry().subrange(0, k as int), trimmed@),
        decreases cs.len() - k,
    {
        let c = cs[k];
        assert(registry().subrange(0, k + 1).drop_last() == registry().subrange(0, k as int));
        assert(registry()[k as int] == cview(c));
        if command_matches(&c, &trimmed) {
            let ghost before = out@;
            out.push(c);
            assert(cviews(out@) == cviews(before).push(cview(c)));
        }
        k = k + 1;
    }
    assert(registry().subrange(0, cs@.len() as int) == registry());
    out
}

/// Every spelling of the registry, command by command.
pub open spec fn all_spellings(cs: Seq<CommandSpec>) -> Seq<Seq<char>>
    decreases cs.len(),
{
    if cs.len() == 0 {
        Seq::empty()
    } else {
        all_spellings(cs.drop_last()) + spec_spellings(cs.last())
    }
}



/// The length of the `k`-th registry spelling.
pub open spec fn spelling_len(k: int) -> nat {
    if k == 0 { 5 } else if k == 1 { 4 } else if k == 2 { 5 } else if k == 3 { 7 } else if k == 4 { 9 } else if k == 5 { 6 } else if k == 6 { 8 } else if k == 7 { 7 } else if k == 8 { 14 } else if k == 9 { 3 } else if k == 10 { 2 } else if k == 11 { 5 } else { 5 }
}

/// The second char of the `k`-th registry spelling.
pub open spec fn spelling_second(k: int) -> char {
    if k == 0 { 'h' } else if k == 1 { 'n' } else if k == 2 { 'l' } else if k == 3 { 'r' } else if k == 4 { 's' } else if k == 5 { 'u' } else if k == 6 { 'h' } else if k == 7 { 's' } else if k == 8 { 'i' } else if k == 9 { '!' } else if k == 10 { '!' } else if k == 11 { 'e' } else { 'q' }
}

proof fn lemma_spelling_facts(k: int)
    requires
        0 <= k < 13,
    ensures
        all_spellings(registry())[k].len() == spelling_len(k),
        all_spellings(registry())[k][0] == '/',
        all_spellings(registry())[k][1] == spelling_second(k),
{
    reveal_with_fuel(all_spellings, 12);
    let sp = all_spellings(registry());
    assert(sp =~= seq![
        "/help"@, "/new"@, "/load"@, "/resume"@, "/sessions"@, "/usage"@, "/history"@, "/skills"@,
        "/install-skill"@, "/!!"@, "/!"@, "/exit"@, "/quit"@,
    ]);
    if k == 0 {
        reveal_strlit("/help");
        assert(sp[0] == "/help"@);
        assert(sp[0].len() == 5 && sp[0][0] == '/' && sp[0][1] == 'h');
    } else if k == 1 {
        reveal_strlit("/new");
        assert(sp[1] == "/new"@);
        assert(sp[1].len() == 4 && sp[1][0] == '/' && sp[1][1] == 'n');
    } else if k == 2 {
        reveal_strlit("/load");
        assert(sp[2] == "/load"@);
        assert(sp[2].len() == 5 && sp[2][0] == '/' && sp[2][1] == 'l');
    } else if k == 3 {
        reveal_strlit("/resume");
        assert(sp[3] == "/resume"@);
        assert(sp[3].len() == 7 && sp[3][0] == '/' && sp[3][1] == 'r');
    } else if k == 4 {
        reveal_strlit("/sessions");
        assert(sp[4] == "/sessions"@);
        assert(sp[4].len() == 9 && sp[4][0] == '/' && sp[4][1] == 's');
    } else if k == 5 {
        reveal_strlit("/usage");
        assert(sp[5] == "/usage"@);
        assert(sp[5].len() == 6 && sp[5][0] == '/' && sp[5][1] == 'u');
    } else if k == 6 {
        reveal_strlit("/history");
        assert(sp[6] == "/history"@);
        assert(sp[6].len() == 8 && sp[6][0] == '/' && sp[6][1] == 'h');
    } else if k == 7 {
        reveal_strlit("/skills");
        assert(sp[7] == "/skills"@);
        assert(sp[7].len() == 7 && sp[7][0] == '/' && sp[7][1] == 's');
    } else if k == 8 {
        reveal_strlit("/install-skill");
        assert(sp[8] == "/install-skill"@);
        assert(sp[8].len() == 14 && sp[8][0] == '/' && sp[8][1] == 'i');
    } else if k == 9 {
        reveal_strlit("/!!");
        assert(sp[9] == "/!!"@);
        assert(sp[9].len() == 3 && sp[9][0] == '/' && sp[9][1] == '!');
    } else if k == 10 {
        reveal_strlit("/!");
        assert(sp[10] == "/!"@);
        assert(sp[10].len() == 2 && sp[10][0] == '/' && sp[10][1] == '!');
    } else if k == 11 {
        reveal_strlit("/exit");
        assert(sp[11] == "/exit"@);
        assert(sp[11].len() == 5 && sp[11][0] == '/' && sp[11][1] == 'e');
    } else {
        reveal_strlit("/quit");
        assert(sp[12] == "/quit"@);
        assert(sp[12].len() == 5 && sp[12][0] == '/' && sp[12][1] == 'q');
    }
}

/// The registry's spellings (names and aliases) are pairwise distinct, so
/// every spelling names exactly one command.
pub proof fn lemma_registry_spellings_unique()
    ensures
        all_spellings(registry()).no_duplicates(),
        all_spellings(registry()) == seq![
            "/help"@, "/new"@, "/load"@, "/resume"@, "/sessions"@, "/usage"@, "/history"@, "/skills"@,
            "/install-skill"@, "/!!"@, "/!"@, "/exit"@, "/quit"@,
        ],
{
    reveal_with_fuel(all_spellings, 12);
    let r = registry();
    assert(all_spellings(r) =~= seq![
        "/help"@, "/new"@, "/load"@, "/resume"@, "/sessions"@, "/usage"@, "/history"@, "/skills"@,
        "/install-skill"@, "/!!"@, "/!"@, "/exit"@, "/quit"@,
    ]);
    let sp = all_spellings(r);
    assert(sp.len() == 13);
    assert forall|i: int, j: int| 0 <= i < sp.len() && 0 <= j < sp.len() && i != j implies sp[i] != sp[j] by {
        lemma_spelling_facts(i);
        lemma_spelling_facts(j);
        assert(spelling_len(i) != spelling_len(j) || spelling_second(i) != spelling_second(j));
    }
}

proof fn lemma_first_spelled_at(cs: Seq<CommandSpec>, s: Seq<char>, k: nat, i: int)
    requires
        k <= i < cs.len(),
        spec_spellings(cs[i]).contains(s),
        forall|j: int| k <= j < i ==> !spec_spellings(cs[j]).contains(s),
    ensures
        first_spelled(cs, s, k) == Some(cs[i]),
    decreases i - k,
{
    if k < i {
        lemma_first_spelled_at(cs, s, k + 1, i);
    }
}

/// Every spelling of every registered command resolves back to that command.
pub proof fn lemma_find_resolves_every_spelling(i: int, a: int)
    requires
        0 <= i < registry().len(),
        0 <= a < spec_spellings(registry()[i]).len(),
    ensures
        first_spelled(registry(), spec_spellings(registry()[i])[a], 0) == Some(registry()[i]),
{
    lemma_registry_spellings_unique();
    let s = spec_spellings(registry()[i])[a];
    assert(spec_spellings(registry()[i]).contains(s));
    assert forall|j: int| 0 <= j < i implies !spec_spellings(#[trigger] registry()[j]).contains(s) by {
        if spec_spellings(registry()[j]).contains(s) {
            let b = choose|b: int| 0 <= b < spec_spellings(registry()[j]).len() && spec_spellings(registry()[j])[b] == s;
            assert(false);
        }
    }
    lemma_first_spelled_at(registry(), s, 0, i);
}

proof fn lemma_matching_all(cs: Seq<CommandSpec>, input: Seq<char>)
    requires
        forall|i: int| 0 <= i < cs.len() ==> spec_command_matches(#[trigger] cs[i], input),
    ensures
        matching(cs, input) == cs,
    decreases cs.len(),
{
    if cs.len() > 0 {
        lemma_matching_all(cs.drop_last(), input);
        assert(spec_command_matches(cs[cs.len() - 1], input));
        assert(cs.drop_last().push(cs.last()) =~= cs);
    }
}


proof fn lemma_name_starts_with_slash(i: int)
    requires
        0 <= i < registry().len(),
    ensures
        registry()[i].name.len() >= 2,
        registry()[i].name[0] == '/',
{
    if i == 0 {
        reveal_strlit("/help");
        assert(registry()[0].name == "/help"@);
        assert(registry()[0].name.len() == 5 && registry()[0].name[0] == '/');
    } else if i == 1 {
        reveal_strlit("/new");
        assert(registry()[1].name == "/new"@);
        assert(registry()[1].name.len() == 4 && registry()[1].name[0] == '/');
    } else if i == 2 {
        reveal_strlit("/load");
        assert(registry()[2].name == "/load"@);
        assert(registry()[2].name.len() == 5 && registry()[2].name[0] == '/');
    } else if i == 3 {
        reveal_strlit("/sessions");
        assert(registry()[3].name == "/sessions"@);
        assert(registry()[3].name.len() == 9 && registry()[3].name[0] == '/');
    } else if i == 4 {
        reveal_strlit("/usage");
        assert(registry()[4].name == "/usage"@);
        assert(registry()[4].name.len() == 6 && registry()[4].name[0] == '/');
    } else if i == 5 {
        reveal_strlit("/history");
        assert(registry()[5].name == "/history"@);
        assert(registry()[5].name.len() == 8 && registry()[5].name[0] == '/');
    } else if i == 6 {
        reveal_strlit("/skills");
        assert(registry()[6].name == "/skills"@);
        assert(registry()[6].name.len() == 7 && registry()[6].name[0] == '/');
    } else if i == 7 {
        reveal_strlit("/install-skill");
        assert(registry()[7].name == "/install-skill"@);
        assert(registry()[7].name.len() == 14 && registry()[7].name[0] == '/');
    } else if i == 8 {
        reveal_strlit("/!!");
        assert(registry()[8].name == "/!!"@);
        assert(registry()[8].name.len() == 3 && registry()[8].name[0] == '/');
    } else if i == 9 {
        reveal_strlit("/!");
        assert(registry()[9].name == "/!"@);
        assert(registry()[9].name.len() == 2 && registry()[9].name[0] == '/');
    } else {
        reveal_strlit("/exit");
        assert(registry()[10].name == "/exit"@);
        assert(registry()[10].name.len() == 5 && registry()[10].name[0] == '/');
    }
}

/// `/` alone is a prefix of every command, so it suggests the whole
/// registry, in order.
pub proof fn lemma_bare_slash_suggests_everything()
    ensures
        matching(registry(), seq!['/']) == registry(),
{
    assert forall|i: int| 0 <= i < registry().len() implies spec_command_matches(#[trigger] registry()[i], seq!['/']) by {
        let c = registry()[i];
        lemma_name_starts_with_slash(i);
        assert(prefix_of(seq!['/'], c.name)) by {
            assert(c.name.subrange(0, 1) =~= seq!['/']);
        }
        if c.kind == CommandKind::Exact {
            assert(spec_spellings(c)[0] == c.name);
        }
    }
    lemma_matching_all(registry(), seq!['/']);
}

} // verus!
