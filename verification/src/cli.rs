//! The language of the interactive shell: the commands that a line can
//! hold, and the entries of the algorithm libraries that it loads.
use crate::cube::algs::{parsed, Algorithm, Twist};
use vstd::prelude::*;
use vstd::string::{StrSliceExecFns, StringExecFns};

verus! {

/// What a command asks for.
#[derive(Clone, Copy, PartialEq, Eq, Structural, Debug)]
pub enum CommandKind {
    Quit,
    Echo,
    Solve,
    Reset,
    Alg,
    Scramble,
}

/// A command and the words that follow its name.
#[derive(Debug)]
pub struct Command {
    pub kind: CommandKind,
    pub args: Vec<String>,
}

/// Whether `char::is_whitespace` holds of the character: whether Unicode
/// gives it the property `White_Space`.
pub uninterp spec fn is_white_space(c: char) -> bool;

/// Calls `char::is_whitespace`, which says whether the character has the
/// Unicode property `White_Space`.
#[verifier::external_body]
fn is_whitespace(c: char) -> (b: bool)
    ensures
        b == is_white_space(c),
{
    c.is_whitespace()
}

/// The number of characters at the start of `text` up to the first blank.
pub open spec fn word_len(text: Seq<char>) -> nat
    decreases text.len(),
{
    if text.len() == 0 || is_white_space(text[0]) {
        0
    } else {
        1 + word_len(text.drop_first())
    }
}

/// The words of `text`: its longest runs of characters that are not blank,
/// first to last.
pub open spec fn words(text: Seq<char>) -> Seq<Seq<char>>
    decreases text.len(),
{
    if text.len() == 0 {
        Seq::empty()
    } else if is_white_space(text[0]) {
        words(text.drop_first())
    } else {
        let n = word_len(text) as int;
        if 0 < n <= text.len() {
            seq![text.take(n)] + words(text.skip(n))
        } else {
            Seq::empty()
        }
    }
}

/// The command that a name stands for, if it stands for one.
pub open spec fn command_kind(name: Seq<char>) -> Option<CommandKind> {
    if name == "quit"@ || name == "exit"@ {
        Some(CommandKind::Quit)
    } else if name == "echo"@ {
        Some(CommandKind::Echo)
    } else if name == "solve"@ {
        Some(CommandKind::Solve)
    } else if name == "reset"@ {
        Some(CommandKind::Reset)
    } else if name == "alg"@ {
        Some(CommandKind::Alg)
    } else if name == "scramble"@ {
        Some(CommandKind::Scramble)
    } else {
        None
    }
}

/// The command that a line holds, with the words after its name: the line
/// starts with an exclamation mark, and its first word after that is the
/// name of a command.
pub open spec fn parsed_command(line: Seq<char>) -> Option<(CommandKind, Seq<Seq<char>>)> {
    if line.len() == 0 || line[0] != '!' {
        None
    } else {
        let w = words(line.drop_first());
        if w.len() == 0 {
            None
        } else {
            match command_kind(w[0]) {
                Some(kind) => Some((kind, w.drop_first())),
                None => None,
            }
        }
    }
}

/// The texts of the strings.
pub open spec fn texts(strings: Seq<String>) -> Seq<Seq<char>> {
    strings.map_values(|s: String| s@)
}

/// A word ends where the text ends or a blank stands.
proof fn lemma_word_len(text: Seq<char>, n: int)
    requires
        0 <= n <= text.len(),
        forall|k: int| 0 <= k < n ==> !is_white_space(#[trigger] text[k]),
        n == text.len() || is_white_space(text[n]),
    ensures
        word_len(text) == n,
    decreases n,
{
    if n > 0 {
        let rest = text.drop_first();
        assert forall|k: int| 0 <= k < n - 1 implies !is_white_space(#[trigger] rest[k]) by {
            assert(rest[k] == text[k + 1]);
        }
        lemma_word_len(rest, n - 1);
    }
}

/// The characters of a text.
fn characters(text: &str) -> (r: Vec<char>)
    ensures
        r@ == text@,
{
    let mut r: Vec<char> = Vec::new();
    let ghost mut read: int = 0;
    for c in it: text.chars()
        invariant
            it.seq() == text@,
            read == it.index(),
            r@ == text@.take(read),
    {
        r.push(c);
        proof {
            read = read + 1;
            assert(r@ =~= text@.take(read));
        }
    }
    proof {
        assert(text@.take(read) =~= text@);
    }
    r
}

/// The words of `text` from its character `from` on.
pub fn split_words(text: &str, from: usize) -> (r: Vec<String>)
    requires
        from <= text@.len(),
    ensures
        texts(r@) == words(text@.skip(from as int)),
{
    let chars = characters(text);
    let n = chars.len();
    let mut r: Vec<String> = Vec::new();
    let mut i: usize = from;
    proof {
        assert(texts(r@) =~= Seq::<Seq<char>>::empty());
    }
    while i < n
        invariant
            from <= i <= n,
            n == text@.len(),
            chars@ == text@,
            texts(r@) + words(text@.skip(i as int)) == words(text@.skip(from as int)),
        decreases n - i,
    {
        let ghost rest = text@.skip(i as int);
        proof {
            assert(rest[0] == text@[i as int]);
            assert(rest.drop_first() =~= text@.skip(i + 1));
        }
        if is_whitespace(chars[i]) {
            i += 1;
        } else {
            let mut j: usize = i + 1;
            while j < n && !is_whitespace(chars[j])
                invariant
                    i < j <= n,
                    n == text@.len(),
                    chars@ == text@,
                    forall|k: int| i <= k < j ==> !is_white_space(#[trigger] text@[k]),
                decreases n - j,
            {
                j += 1;
            }
            proof {
                assert forall|k: int| 0 <= k < j - i implies !is_white_space(
                    #[trigger] rest[k],
                ) by {
                    assert(rest[k] == text@[i + k]);
                }
                if j < n {
                    assert(rest[j - i] == text@[j as int]);
                }
                lemma_word_len(rest, j - i);
                assert(rest.take(j - i) =~= text@.subrange(i as int, j as int));
                assert(rest.skip(j - i) =~= text@.skip(j as int));
            }
            let word = String::from_str(text.substring_char(i, j));
            let ghost before = r@;
            r.push(word);
            proof {
                assert(texts(r@) =~= texts(before) + seq![word@]);
                assert(texts(r@) + words(text@.skip(j as int)) =~= texts(before) + (seq![word@]
                    + words(text@.skip(j as int))));
            }
            i = j;
        }
    }
    proof {
        assert(text@.skip(n as int) =~= Seq::<char>::empty());
        assert(texts(r@) + Seq::<Seq<char>>::empty() =~= texts(r@));
    }
    r
}

/// Whether the text of `word` is that of `name`.
fn is_named(word: &String, name: &str) -> (b: bool)
    ensures
        b == (word@ == name@),
{
    let other = String::from_str(name);
    *word == other
}

impl Command {
    /// Reads a command from a line: an exclamation mark, the name of the
    /// command, and its arguments, the words set apart by blanks. A line of
    /// another form holds no command.
    pub fn parse(line: &str) -> (r: Option<Command>)
        ensures
            match r {
                Some(cmd) => parsed_command(line@) == Some((cmd.kind, texts(cmd.args@))),
                None => parsed_command(line@) is None,
            },
    {
        let len = line.unicode_len();
        if len == 0 || line.get_char(0) != '!' {
            return None;
        }
        proof {
            assert(line@.skip(1) =~= line@.drop_first());
        }
        let mut parts = split_words(line, 1);
        if parts.len() == 0 {
            return None;
        }
        let ghost all = parts@;
        let name = parts.remove(0);
        proof {
            assert(texts(parts@) =~= texts(all).drop_first());
            assert(texts(all)[0] == name@);
        }
        let kind = if is_named(&name, "quit") || is_named(&name, "exit") {
            CommandKind::Quit
        } else if is_named(&name, "echo") {
            CommandKind::Echo
        } else if is_named(&name, "solve") {
            CommandKind::Solve
        } else if is_named(&name, "reset") {
            CommandKind::Reset
        } else if is_named(&name, "alg") {
            CommandKind::Alg
        } else if is_named(&name, "scramble") {
            CommandKind::Scramble
        } else {
            return None;
        };
        Some(Command { kind, args: parts })
    }
}

/// The place of the first colon of `text`, or the length of `text` where it
/// has none.
pub open spec fn colon_at(text: Seq<char>) -> int
    decreases text.len(),
{
    if text.len() == 0 || text[0] == ':' {
        0
    } else {
        1 + colon_at(text.drop_first())
    }
}

/// The entry of an algorithm library that a line holds: the name before the
/// first colon, and the twists that the text between that colon and the
/// next, or the end of the line, stands for. A line without a colon holds no
/// entry.
pub open spec fn library_entry(line: Seq<char>) -> Option<(Seq<char>, Seq<Twist>)> {
    let first = colon_at(line);
    if 0 <= first < line.len() {
        let rest = line.skip(first + 1);
        let second = colon_at(rest);
        if 0 <= second <= rest.len() {
            Some((line.take(first), parsed(rest.take(second))))
        } else {
            None
        }
    } else {
        None
    }
}

/// The first colon stands where no colon stands before and the text ends
/// or a colon stands.
proof fn lemma_colon_at(text: Seq<char>, n: int)
    requires
        0 <= n <= text.len(),
        forall|k: int| 0 <= k < n ==> #[trigger] text[k] != ':',
        n == text.len() || text[n] == ':',
    ensures
        colon_at(text) == n,
    decreases n,
{
    if n > 0 {
        let rest = text.drop_first();
        assert forall|k: int| 0 <= k < n - 1 implies #[trigger] rest[k] != ':' by {
            assert(rest[k] == text[k + 1]);
        }
        lemma_colon_at(rest, n - 1);
    }
}

/// The place of the first colon of `chars` from `from` on, or the length of
/// `chars` where none follows.
fn find_colon(chars: &Vec<char>, from: usize) -> (at: usize)
    requires
        from <= chars@.len(),
    ensures
        from <= at <= chars@.len(),
        at - from == colon_at(chars@.skip(from as int)),
{
    let mut at: usize = from;
    while at < chars.len() && chars[at] != ':'
        invariant
            from <= at <= chars@.len(),
            forall|k: int| from <= k < at ==> #[trigger] chars@[k] != ':',
        decreases chars@.len() - at,
    {
        at += 1;
    }
    proof {
        let rest = chars@.skip(from as int);
        assert forall|k: int| 0 <= k < at - from implies #[trigger] rest[k] != ':' by {
            assert(rest[k] == chars@[from + k]);
        }
        if at < chars@.len() {
            assert(rest[at - from] == chars@[at as int]);
        }
        lemma_colon_at(rest, at - from);
    }
    at
}

/// Reads an entry of an algorithm library from a line of the form
/// `name:algorithm`. What follows a second colon is passed over. A line
/// without a colon holds no entry.
pub fn parse_library_line(line: &str) -> (r: Option<(String, Algorithm)>)
    ensures
        match r {
            Some((name, alg)) => library_entry(line@) == Some((name@, alg@)),
            None => library_entry(line@) is None,
        },
{
    let chars = characters(line);
    let n = chars.len();
    let first = find_colon(&chars, 0);
    proof {
        assert(line@.skip(0) =~= line@);
    }
    if first >= n {
        return None;
    }
    let second = find_colon(&chars, first + 1);
    proof {
        let rest = line@.skip(first + 1);
        assert(rest.take(second - (first + 1)) =~= line@.subrange(first + 1, second as int));
        assert(line@.take(first as int) =~= line@.subrange(0, first as int));
    }
    let name = String::from_str(line.substring_char(0, first));
    let alg = Algorithm::from_str(line.substring_char(first + 1, second));
    Some((name, alg))
}

/// The algorithms of the libraries, each under its name.
pub struct AlgRegistry {
    by_name: Vec<(String, Algorithm)>,
}

/// The names and twists of the entries, later entries before earlier ones
/// of the same name.
pub open spec fn entries_map(entries: Seq<(String, Algorithm)>) -> Map<Seq<char>, Seq<Twist>>
    decreases entries.len(),
{
    if entries.len() == 0 {
        Map::empty()
    } else {
        entries_map(entries.drop_last()).insert(entries.last().0@, entries.last().1@)
    }
}

/// Whether no two entries have the same name.
pub open spec fn names_differ(entries: Seq<(String, Algorithm)>) -> bool {
    forall|i: int, j: int|
        0 <= i < j < entries.len() ==> (#[trigger] entries[i]).0@ != (#[trigger] entries[j]).0@
}

/// A name is in the map exactly if an entry has it, and where the names
/// differ the map holds for it the twists of that entry.
proof fn lemma_entries_map(entries: Seq<(String, Algorithm)>, name: Seq<char>)
    ensures
        entries_map(entries).contains_key(name) <==> exists|i: int|
            0 <= i < entries.len() && (#[trigger] entries[i]).0@ == name,
        names_differ(entries) ==> forall|i: int|
            0 <= i < entries.len() && (#[trigger] entries[i]).0@ == name ==> entries_map(
                entries,
            )[name] == entries[i].1@,
    decreases entries.len(),
{
    if entries.len() > 0 {
        let front = entries.drop_last();
        let n = front.len() as int;
        lemma_entries_map(front, name);
        if entries_map(entries).contains_key(name) {
            if entries[n].0@ != name {
                let i = choose|i: int| 0 <= i < front.len() && (#[trigger] front[i]).0@ == name;
                assert(entries[i].0@ == name);
            }
        }
        if exists|i: int| 0 <= i < entries.len() && (#[trigger] entries[i]).0@ == name {
            let i = choose|i: int| 0 <= i < entries.len() && (#[trigger] entries[i]).0@ == name;
            if i < n {
                assert(front[i].0@ == name);
            }
        }
        if names_differ(entries) {
            assert forall|i: int, j: int| 0 <= i < j < front.len() implies (
            #[trigger] front[i]).0@ != (#[trigger] front[j]).0@ by {
                assert(entries[i].0@ != entries[j].0@);
            }
            assert forall|i: int|
                0 <= i < entries.len() && (#[trigger] entries[i]).0@ == name implies entries_map(
                entries,
            )[name] == entries[i].1@ by {
                if i < n {
                    assert(front[i].0@ == name);
                    assert(entries[i].0@ != entries[n].0@);
                }
            }
        }
    }
}

/// Without one of its entries, a sequence of entries with different names
/// gives the map without that entry's name.
proof fn lemma_entries_map_remove(entries: Seq<(String, Algorithm)>, at: int)
    requires
        0 <= at < entries.len(),
        names_differ(entries),
    ensures
        names_differ(entries.remove(at)),
        entries_map(entries.remove(at)) == entries_map(entries).remove(entries[at].0@),
    decreases entries.len(),
{
    let rest = entries.remove(at);
    let n = entries.len() - 1;
    assert forall|i: int, j: int| 0 <= i < j < rest.len() implies (#[trigger] rest[i]).0@ != (
    #[trigger] rest[j]).0@ by {
        let i0 = if i < at {
            i
        } else {
            i + 1
        };
        let j0 = if j < at {
            j
        } else {
            j + 1
        };
        assert(rest[i] == entries[i0] && rest[j] == entries[j0]);
    }
    if at == n {
        assert(rest =~= entries.drop_last());
        lemma_entries_map(entries.drop_last(), entries[at].0@);
        if entries_map(entries.drop_last()).contains_key(entries[at].0@) {
            let i = choose|i: int|
                0 <= i < n && (#[trigger] entries.drop_last()[i]).0@ == entries[at].0@;
            assert(entries[i].0@ != entries[n].0@);
        }
        assert(entries_map(rest) =~= entries_map(entries).remove(entries[at].0@));
    } else {
        let front = entries.drop_last();
        assert forall|i: int, j: int| 0 <= i < j < front.len() implies (
        #[trigger] front[i]).0@ != (#[trigger] front[j]).0@ by {
            assert(entries[i].0@ != entries[j].0@);
        }
        lemma_entries_map_remove(front, at);
        assert(rest.drop_last() =~= front.remove(at));
        assert(rest.last() == entries.last());
        assert(entries[at].0@ != entries[n].0@);
        assert(entries_map(rest) =~= entries_map(entries).remove(entries[at].0@));
    }
}

impl View for AlgRegistry {
    type V = Map<Seq<char>, Seq<Twist>>;

    closed spec fn view(&self) -> Map<Seq<char>, Seq<Twist>> {
        entries_map(self.by_name@)
    }
}

impl AlgRegistry {
    #[verifier::type_invariant]
    spec fn names_are_different(self) -> bool {
        names_differ(self.by_name@)
    }

    /// A registry that holds nothing.
    pub fn new() -> (r: AlgRegistry)
        ensures
            r@ == Map::<Seq<char>, Seq<Twist>>::empty(),
    {
        Self { by_name: Vec::new() }
    }

    /// The place of the entry with the given name, or the number of entries
    /// where none has it.
    fn find(&self, name: &String) -> (at: usize)
        ensures
            at <= self.by_name@.len(),
            at < self.by_name@.len() ==> self.by_name@[at as int].0@ == name@,
            at == self.by_name@.len() ==> !self@.contains_key(name@),
    {
        let mut at: usize = 0;
        while at < self.by_name.len()
            invariant
                at <= self.by_name@.len(),
                forall|k: int| 0 <= k < at ==> (#[trigger] self.by_name@[k]).0@ != name@,
            decreases self.by_name@.len() - at,
        {
            if self.by_name[at].0 == *name {
                return at;
            }
            at += 1;
        }
        proof {
            lemma_entries_map(self.by_name@, name@);
        }
        at
    }

    /// The algorithm under the given name, if there is one.
    pub fn get(&self, name: &str) -> (r: Option<&Algorithm>)
        ensures
            match r {
                Some(alg) => self@.contains_key(name@) && self@[name@] == alg@,
                None => !self@.contains_key(name@),
            },
    {
        let wanted = String::from_str(name);
        let at = self.find(&wanted);
        if at < self.by_name.len() {
            proof {
                use_type_invariant(self);
                lemma_entries_map(self.by_name@, name@);
            }
            Some(&self.by_name[at].1)
        } else {
            None
        }
    }

    /// Puts the algorithm under the name, and gives back the one that was
    /// there before, if there was one.
    pub fn insert(&mut self, name: String, alg: Algorithm) -> (before: Option<Algorithm>)
        ensures
            final(self)@ == old(self)@.insert(name@, alg@),
            match before {
                Some(was) => old(self)@.contains_key(name@) && old(self)@[name@] == was@,
                None => !old(self)@.contains_key(name@),
            },
    {
        proof {
            use_type_invariant(&*self);
            lemma_entries_map(self.by_name@, name@);
        }
        let at = self.find(&name);
        let ghost entries = self.by_name@;
        let mut by_name = Vec::new();
        core::mem::swap(&mut by_name, &mut self.by_name);
        let before = if at < by_name.len() {
            proof {
                lemma_entries_map_remove(entries, at as int);
            }
            let (_, was) = by_name.remove(at);
            Some(was)
        } else {
            None
        };
        proof {
            lemma_entries_map(by_name@, name@);
            assert(names_differ(by_name@.push((name, alg)))) by {
                assert forall|i: int, j: int|
                    0 <= i < j < by_name@.push((name, alg)).len() implies (
                #[trigger] by_name@.push((name, alg))[i]).0@ != (#[trigger] by_name@.push(
                    (name, alg),
                )[j]).0@ by {
                    if j < by_name@.len() {
                        assert(by_name@[i].0@ != by_name@[j].0@);
                    } else {
                        assert(by_name@[i].0@ != name@);
                    }
                }
            }
            assert(by_name@.push((name, alg)).drop_last() =~= by_name@);
            assert(entries_map(by_name@.push((name, alg))) =~= entries_map(entries).insert(
                name@,
                alg@,
            ));
        }
        by_name.push((name, alg));
        self.by_name = by_name;
        before
    }
}

} // verus!
