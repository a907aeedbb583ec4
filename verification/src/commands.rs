//! Bot commands: a pattern that a post is matched against, and either a
//! list of replies to pick from or the name of an action. A command set
//! also answers `.help` with a listing of its commands.
use vstd::prelude::*;
use crate::hangman::HangmanGame;
use crate::random::choose_from;
use crate::text::{debug_string, str_debug};
use crate::yaml::{as_text, find_key, load_yaml, lookup, yaml_documents, YamlNode};
use yaml_rust::ScanError;

verus! {

/// `regex::Regex::new` accepts the pattern.
pub uninterp spec fn regex_compiles(pattern: Seq<char>) -> bool;

/// `regex::Regex::is_match`: the compiled pattern matches somewhere in
/// `text`.
pub uninterp spec fn regex_matches(pattern: Seq<char>, text: Seq<char>) -> bool;

/// Whether `regex::Regex::new` accepts the pattern (the compiled regex is
/// dropped).
#[verifier::external_body]
fn compiles(pattern: &str) -> (r: bool)
    ensures
        r == regex_compiles(pattern@),
{
    regex::Regex::new(pattern).is_ok()
}

/// `regex::Regex::is_match` of `text` against the compiled `pattern`.
#[verifier::external_body]
fn is_match(pattern: &str, text: &str) -> (r: bool)
    requires
        regex_compiles(pattern@),
    ensures
        r == regex_matches(pattern@, text@),
{
    regex::Regex::new(pattern).unwrap().is_match(text)
}

/// The pattern that asks for the listing of all commands.
pub open spec fn help_pattern() -> Seq<char> {
    "^\\.help$"@
}

/// How a compiled regex shows itself with `{:?}`: `Regex(` and the pattern
/// in `Debug` form, then `)`.
pub open spec fn regex_debug(pattern: Seq<char>) -> Seq<char> {
    "Regex("@ + str_debug(pattern) + ")"@
}

/// An optional string as plain text.
pub open spec fn opt_text(s: Option<String>) -> Option<Seq<char>> {
    match s {
        Some(t) => Some(t@),
        None => None,
    }
}

/// An optional list of strings as plain texts.
pub open spec fn opt_texts(s: Option<Vec<String>>) -> Option<Seq<Seq<char>>> {
    match s {
        Some(v) => Some(v@.map_values(|t: String| t@)),
        None => None,
    }
}

/// The abstract content of a [`Command`].
pub struct CommandView {
    pub name: Option<Seq<char>>,
    pub description: Option<Seq<char>>,
    pub regex: Seq<char>,
    pub replies: Option<Seq<Seq<char>>>,
    pub execute: Option<Seq<char>>,
    pub hangman: bool,
}

impl CommandView {
    /// The command's pattern matches the text.
    pub open spec fn responds(self, text: Seq<char>) -> bool {
        regex_matches(self.regex, text)
    }

    /// `reply` is an answer the command may give: one of its replies, or,
    /// for a command that names an action, "not implemented".
    pub open spec fn valid_reply(self, reply: Seq<char>) -> bool {
        match self.replies {
            Some(rs) => rs.contains(reply),
            None => reply == "not implemented"@,
        }
    }

    /// Answering `text` needs no pick from an empty list of replies.
    pub open spec fn can_reply(self, text: Seq<char>) -> bool {
        match self.replies {
            Some(rs) => self.responds(text) ==> rs.len() > 0,
            None => true,
        }
    }

    /// The description, or a notice that there is none.
    pub open spec fn description_text(self) -> Seq<char> {
        match self.description {
            Some(d) => d,
            None => "No description specified"@,
        }
    }

    /// The command's entry in the `.help` listing.
    pub open spec fn help_line(self) -> Seq<char> {
        "[b]"@ + str_debug(self.name.unwrap()) + "[/b]  [code]"@ + regex_debug(self.regex)
            + "[/code]\n"@ + str_debug(self.description_text()) + "\n"@
    }
}

/// The text of the message for a command with neither replies nor action.
pub open spec fn incomplete_message(regex: Seq<char>) -> Seq<char> {
    "Command "@ + regex + " does not provide either of replies or executor"@
}

/// Why a command could not be made.
#[derive(Debug)]
pub enum CommandError {
    /// The command has neither replies nor an action; the text says so.
    Incomplete(String),
}

/// A command: the pattern it answers to and what it answers.
#[derive(Debug)]
pub struct Command {
    name: Option<String>,
    description: Option<String>,
    regex: String,
    replies: Option<Vec<String>>,
    execute: Option<String>,
    hangman: Option<&'static HangmanGame>,
}

impl View for Command {
    type V = CommandView;

    closed spec fn view(&self) -> CommandView {
        CommandView {
            name: opt_text(self.name),
            description: opt_text(self.description),
            regex: self.regex@,
            replies: opt_texts(self.replies),
            execute: opt_text(self.execute),
            hangman: self.hangman is Some,
        }
    }
}

impl Command {
    #[verifier::type_invariant]
    spec fn pattern_compiles(self) -> bool {
        regex_compiles(self.regex@)
    }

    /// Makes a command. A command needs replies or an action; its pattern
    /// must compile.
    pub fn init(
        name: Option<String>,
        regex: String,
        description: Option<String>,
        replies: Option<Vec<String>>,
        execute: Option<String>,
        hangman: Option<&'static HangmanGame>,
    ) -> (r: Result<Command, CommandError>)
        requires
            replies is Some || execute is Some ==> regex_compiles(regex@),
        ensures
            r is Err <==> replies is None && execute is None,
            r matches Err(CommandError::Incomplete(m)) ==> m@ == incomplete_message(regex@),
            r matches Ok(c) ==> c@ == (CommandView {
                name: opt_text(name),
                description: opt_text(description),
                regex: regex@,
                replies: opt_texts(replies),
                execute: opt_text(execute),
                hangman: hangman is Some,
            }),
    {
        if replies.is_none() && execute.is_none() {
            let mut text = String::from_str("Command ");
            text.append(regex.as_str());
            text.append(" does not provide either of replies or executor");
            return Err(CommandError::Incomplete(text));
        }
        Ok(Command { name, description, regex, replies, execute, hangman })
    }

    /// The command's name.
    pub fn name(&self) -> (r: &Option<String>)
        ensures
            opt_text(*r) == self@.name,
    {
        &self.name
    }

    /// The command's pattern.
    pub fn regex(&self) -> (r: &String)
        ensures
            r@ == self@.regex,
    {
        &self.regex
    }

    /// The command's replies.
    pub fn replies(&self) -> (r: &Option<Vec<String>>)
        ensures
            opt_texts(*r) == self@.replies,
    {
        &self.replies
    }

    /// The command's action.
    pub fn execute(&self) -> (r: &Option<String>)
        ensures
            opt_text(*r) == self@.execute,
    {
        &self.execute
    }

    /// The description, or a notice that there is none.
    pub fn get_description(&self) -> (r: String)
        ensures
            r@ == self@.description_text(),
    {
        match &self.description {
            Some(desc) => desc.clone(),
            None => String::from_str("No description specified"),
        }
    }

    /// One of the replies, picked at random.
    pub fn get_reply(&self) -> (r: String)
        requires
            self@.replies matches Some(rs) && rs.len() > 0,
        ensures
            self@.valid_reply(r@),
    {
        match &self.replies {
            Some(replies) => {
                let mut candidates: Vec<usize> = Vec::new();
                let mut i: usize = 0;
                while i < replies.len()
                    invariant
                        i <= replies@.len(),
                        candidates@ == Seq::new(i as nat, |j: int| j as usize),
                    decreases replies@.len() - i,
                {
                    candidates.push(i);
                    i = i + 1;
                    assert(candidates@ =~= Seq::new(i as nat, |j: int| j as usize));
                }
                match choose_from(&candidates) {
                    Some(k) => {
                        proof {
                            let p = choose|p: int| 0 <= p < candidates@.len() && candidates@[p] == k;
                            assert(candidates@[p] == p as usize);
                        }
                        let reply = replies[k].clone();
                        proof {
                            let rs = replies@.map_values(|t: String| t@);
                            assert(rs[k as int] == reply@);
                        }
                        reply
                    },
                    None => {
                        proof {
                            assert(false);
                        }
                        String::new()
                    },
                }
            },
            None => {
                proof {
                    assert(false);
                }
                String::new()
            },
        }
    }

    /// Answers `text` when the pattern matches it: one of the replies
    /// picked at random, or "not implemented" for a command that names an
    /// action. `None` when the pattern does not match.
    pub fn check_against(&self, text: String) -> (r: Option<String>)
        requires
            self@.can_reply(text@),
        ensures
            r is Some <==> self@.responds(text@),
            r matches Some(reply) ==> self@.valid_reply(reply@),
    {
        proof {
            use_type_invariant(self);
        }
        if is_match(self.regex.as_str(), text.as_str()) {
            if self.replies.is_some() {
                return Some(self.get_reply());
            } else {
                return Some(String::from_str("not implemented"));
            }
        }
        None
    }
}

/// The abstract content of a [`CommandSet`].
pub struct CommandSetView {
    pub commands: Seq<CommandView>,
    pub help: Seq<char>,
}

/// The `.help` listing of the commands, one entry each, in order.
pub open spec fn help_text(commands: Seq<CommandView>) -> Seq<char>
    decreases commands.len(),
{
    if commands.len() == 0 {
        Seq::empty()
    } else {
        help_text(commands.drop_last()) + commands.last().help_line()
    }
}

impl CommandSetView {
    /// The text asks for the listing.
    pub open spec fn asks_help(self, text: Seq<char>) -> bool {
        regex_matches(self.help, text)
    }

    /// Command `i` is the first one whose pattern matches the text.
    pub open spec fn leads(self, i: int, text: Seq<char>) -> bool {
        &&& 0 <= i < self.commands.len()
        &&& self.commands[i].responds(text)
        &&& forall|j: int| 0 <= j < i ==> !(#[trigger] self.commands[j]).responds(text)
    }

    /// Some command's pattern matches the text.
    pub open spec fn any_responds(self, text: Seq<char>) -> bool {
        exists|i: int| 0 <= i < self.commands.len() && (#[trigger] self.commands[i]).responds(text)
    }

    /// `reply` is a possible answer to `text`: the listing for `.help`,
    /// otherwise an answer of the first command that matches, and nothing
    /// when none matches.
    pub open spec fn answers(self, text: Seq<char>, reply: Option<Seq<char>>) -> bool {
        if self.asks_help(text) {
            reply == Some(help_text(self.commands))
        } else {
            &&& (reply is Some <==> self.any_responds(text))
            &&& forall|i: int|
                #[trigger] self.leads(i, text) ==> (reply matches Some(r) && self.commands[i].valid_reply(r))
        }
    }

    /// Answering `text` goes through: a listing names every command, and
    /// the first command that matches has a reply to pick.
    pub open spec fn answerable(self, text: Seq<char>) -> bool {
        if self.asks_help(text) {
            forall|i: int| 0 <= i < self.commands.len() ==> (#[trigger] self.commands[i]).name is Some
        } else {
            forall|i: int| #[trigger] self.leads(i, text) ==> self.commands[i].can_reply(text)
        }
    }
}

/// The commands the bot answers to.
#[derive(Debug)]
pub struct CommandSet {
    commands: Vec<Command>,
    help: String,
}

impl View for CommandSet {
    type V = CommandSetView;

    closed spec fn view(&self) -> CommandSetView {
        CommandSetView { commands: self.commands@.map_values(|c: Command| c@), help: self.help@ }
    }
}

/// Why the command configuration could not be read.
#[derive(Debug)]
pub enum ConfigError {
    /// The text is not YAML.
    Yaml(ScanError),
}

/// The action name of a hangman command.
pub open spec fn is_hangman_action(execute: Option<Seq<char>>) -> bool {
    execute == Some("hangman.play"@) || execute == Some("hangman.score"@)
}

/// The string under `key` in a mapping, if it is a string.
pub open spec fn field_text(pairs: Seq<(YamlNode, YamlNode)>, key: Seq<char>) -> Option<Seq<char>> {
    match lookup(pairs, key) {
        Some(v) => as_text(v),
        None => None,
    }
}

/// The value under `key` is absent or a list of strings.
pub open spec fn field_list_ok(pairs: Seq<(YamlNode, YamlNode)>, key: Seq<char>) -> bool {
    match lookup(pairs, key) {
        Some(YamlNode::Array(items)) => forall|i: int|
            0 <= i < items@.len() ==> (#[trigger] items@[i]) is String,
        Some(_) => false,
        None => true,
    }
}

/// The list of strings under `key`, if present.
pub open spec fn field_list(pairs: Seq<(YamlNode, YamlNode)>, key: Seq<char>) -> Option<
    Seq<Seq<char>>,
> {
    match lookup(pairs, key) {
        Some(YamlNode::Array(items)) => Some(
            Seq::new(items@.len(), |i: int| as_text(items@[i]).unwrap()),
        ),
        _ => None,
    }
}

/// A command entry (name, settings) can be read: the settings are a
/// mapping with a string `regex`, `replies` is absent or a list of
/// strings, the action is not a hangman action (the hangman game cannot
/// be started: it has no words), and a command with replies or an action
/// has a pattern that compiles.
pub open spec fn entry_ok(entry: (YamlNode, YamlNode)) -> bool {
    match entry.1 {
        YamlNode::Hash(h) => {
            &&& field_text(h@, "regex"@) is Some
            &&& field_list_ok(h@, "replies"@)
            &&& !is_hangman_action(field_text(h@, "execute"@))
            &&& (field_list(h@, "replies"@) is Some || field_text(h@, "execute"@) is Some)
                ==> regex_compiles(field_text(h@, "regex"@).unwrap())
        },
        _ => false,
    }
}

/// The command an entry makes, or `None` when it has neither replies nor
/// an action.
pub open spec fn entry_command(entry: (YamlNode, YamlNode)) -> Option<CommandView> {
    match entry.1 {
        YamlNode::Hash(h) => {
            let replies = field_list(h@, "replies"@);
            let execute = field_text(h@, "execute"@);
            if replies is None && execute is None {
                None
            } else {
                Some(
                    CommandView {
                        name: as_text(entry.0),
                        description: field_text(h@, "description"@),
                        regex: field_text(h@, "regex"@).unwrap(),
                        replies: replies,
                        execute: execute,
                        hangman: false,
                    },
                )
            }
        },
        _ => None,
    }
}

/// The commands made by a list of entries, in order.
pub open spec fn entries_commands(entries: Seq<(YamlNode, YamlNode)>) -> Seq<CommandView>
    decreases entries.len(),
{
    if entries.len() == 0 {
        Seq::empty()
    } else {
        entries_commands(entries.drop_last()) + match entry_command(entries.last()) {
            Some(c) => seq![c],
            None => Seq::empty(),
        }
    }
}

/// The entries under `commands` of a document that is a mapping.
pub open spec fn doc_entries(doc: YamlNode) -> Option<Seq<(YamlNode, YamlNode)>> {
    match doc {
        YamlNode::Hash(h) => match lookup(h@, "commands"@) {
            Some(YamlNode::Hash(entries)) => Some(entries@),
            _ => None,
        },
        _ => None,
    }
}

/// Every entry of a mapping of command entries can be read.
pub open spec fn entries_ok(entries: Seq<(YamlNode, YamlNode)>) -> bool {
    forall|e: int| 0 <= e < entries.len() ==> entry_ok(#[trigger] entries[e])
}

/// The document is a mapping whose `commands` is a mapping of entries that
/// can all be read.
pub open spec fn doc_ok(doc: YamlNode) -> bool {
    match doc_entries(doc) {
        Some(entries) => entries_ok(entries),
        None => false,
    }
}

/// Every document can be read.
pub open spec fn docs_ok(docs: Seq<YamlNode>) -> bool {
    forall|d: int| 0 <= d < docs.len() ==> doc_ok(#[trigger] docs[d])
}

/// The commands made by all documents, in order.
pub open spec fn docs_commands(docs: Seq<YamlNode>) -> Seq<CommandView>
    decreases docs.len(),
{
    if docs.len() == 0 {
        Seq::empty()
    } else {
        docs_commands(docs.drop_last()) + entries_commands(doc_entries(docs.last()).unwrap())
    }
}

/// `into_string` of a node: the text of a string node.
fn node_string(node: &YamlNode) -> (r: Option<String>)
    ensures
        opt_text(r) == as_text(*node),
{
    match node {
        YamlNode::String(s) => Some(s.clone()),
        _ => None,
    }
}

/// The string under `key`, if it is a string.
fn extract_string(pairs: &Vec<(YamlNode, YamlNode)>, key: &str) -> (r: Option<String>)
    ensures
        opt_text(r) == field_text(pairs@, key@),
{
    match find_key(pairs, key) {
        Some(value) => node_string(value),
        None => None,
    }
}

/// The list of strings under `key`, if present.
fn extract_vec(pairs: &Vec<(YamlNode, YamlNode)>, key: &str) -> (r: Option<Vec<String>>)
    requires
        field_list_ok(pairs@, key@),
    ensures
        opt_texts(r) == field_list(pairs@, key@),
{
    match find_key(pairs, key) {
        Some(value) => {
            match value {
                YamlNode::Array(items) => {
                    let mut result: Vec<String> = Vec::new();
                    let mut i: usize = 0;
                    while i < items.len()
                        invariant
                            i <= items@.len(),
                            forall|j: int| 0 <= j < items@.len() ==> (#[trigger] items@[j]) is String,
                            result@.len() == i,
                            forall|j: int|
                                0 <= j < i ==> (#[trigger] result@[j])@ == as_text(items@[j]).unwrap(),
                        decreases items@.len() - i,
                    {
                        let text = node_string(&items[i]);
                        result.push(text.unwrap());
                        i = i + 1;
                    }
                    assert(result@.map_values(|t: String| t@) =~= Seq::new(
                        items@.len(),
                        |j: int| as_text(items@[j]).unwrap(),
                    ));
                    Some(result)
                },
                _ => None,
            }
        },
        None => None,
    }
}

/// Reads the settings of command entry `(name, settings)`.
fn read_entry(entry: &(YamlNode, YamlNode)) -> (r: Option<Command>)
    requires
        entry_ok(*entry),
    ensures
        r matches Some(c) ==> entry_command(*entry) == Some(c@),
        r is None ==> entry_command(*entry) is None,
{
    match &entry.1 {
        YamlNode::Hash(raw_command) => {
            let name = node_string(&entry.0);
            let regex = extract_string(raw_command, "regex");
            let description = extract_string(raw_command, "description");
            let replies = extract_vec(raw_command, "replies");
            let execute = extract_string(raw_command, "execute");
            match Command::init(name, regex.unwrap(), description, replies, execute, None) {
                Ok(command) => Some(command),
                Err(_) => None,
            }
        },
        _ => None,
    }
}

/// Checks that a command entry can be read.
fn entry_acceptable(entry: &(YamlNode, YamlNode)) -> (r: bool)
    ensures
        r == entry_ok(*entry),
{
    match &entry.1 {
        YamlNode::Hash(raw_command) => {
            let regex = extract_string(raw_command, "regex");
            let regex = match regex {
                Some(regex) => regex,
                None => {
                    return false;
                },
            };
            let replies_ok = match find_key(raw_command, "replies") {
                Some(value) => match value {
                    YamlNode::Array(items) => {
                        let mut ok = true;
                        let mut i: usize = 0;
                        while i < items.len()
                            invariant
                                i <= items@.len(),
                                ok == forall|j: int| 0 <= j < i ==> (#[trigger] items@[j]) is String,
                            decreases items@.len() - i,
                        {
                            let is_text = match &items[i] {
                                YamlNode::String(_) => true,
                                _ => false,
                            };
                            ok = ok && is_text;
                            i = i + 1;
                        }
                        ok
                    },
                    _ => false,
                },
                None => true,
            };
            if !replies_ok {
                return false;
            }
            let execute = extract_string(raw_command, "execute");
            let has_replies = find_key(raw_command, "replies").is_some();
            match &execute {
                Some(action) => {
                    let play = String::from_str("hangman.play");
                    let score = String::from_str("hangman.score");
                    if *action == play || *action == score {
                        return false;
                    }
                },
                None => {},
            }
            if has_replies || execute.is_some() {
                compiles(regex.as_str())
            } else {
                true
            }
        },
        _ => false,
    }
}

/// Checks that every document can be read.
fn docs_acceptable(docs: &Vec<YamlNode>) -> (r: bool)
    ensures
        r == docs_ok(docs@),
{
    let mut d: usize = 0;
    while d < docs.len()
        invariant
            d <= docs@.len(),
            forall|k: int| 0 <= k < d ==> doc_ok(#[trigger] docs@[k]),
        decreases docs@.len() - d,
    {
        match &docs[d] {
            YamlNode::Hash(doc) => match find_key(doc, "commands") {
                Some(commands) => match commands {
                    YamlNode::Hash(entries) => {
                        let mut e: usize = 0;
                        while e < entries.len()
                            invariant
                                e <= entries@.len(),
                                d < docs@.len(),
                                doc_entries(docs@[d as int]) == Some(entries@),
                                forall|k: int| 0 <= k < e ==> entry_ok(#[trigger] entries@[k]),
                            decreases entries@.len() - e,
                        {
                            if !entry_acceptable(&entries[e]) {
                                assert(!entries_ok(entries@));
                                proof {
                                    assert(!entry_ok(entries@[e as int]));
                                    assert(!doc_ok(docs@[d as int]));
                                }
                                return false;
                            }
                            e = e + 1;
                        }
                    },
                    _ => {
                        proof {
                            assert(doc_entries(docs@[d as int]) is None);
                        }
                        return false;
                    },
                },
                None => {
                    proof {
                        assert(doc_entries(docs@[d as int]) is None);
                    }
                    return false;
                },
            },
            _ => {
                proof {
                    assert(doc_entries(docs@[d as int]) is None);
                }
                return false;
            },
        }
        d = d + 1;
    }
    true
}

/// The command entries of a document, read in order.
fn read_doc(doc: &YamlNode, commands: &mut Vec<Command>)
    requires
        doc_ok(*doc),
    ensures
        final(commands)@.map_values(|c: Command| c@) == old(commands)@.map_values(|c: Command| c@)
            + entries_commands(doc_entries(*doc).unwrap()),
{
    match doc {
        YamlNode::Hash(h) => match find_key(h, "commands") {
            Some(value) => match value {
                YamlNode::Hash(entries) => {
                    assert(lookup(h@, "commands"@) == Some(*value));
                    assert(doc_entries(*doc) == Some(entries@));
                    read_entries(entries, commands);
                },
                _ => {},
            },
            None => {},
        },
        _ => {},
    }
}

proof fn lemma_views_push(s: Seq<Command>, c: Command)
    ensures
        s.push(c).map_values(|x: Command| x@) == s.map_values(|x: Command| x@).push(c@),
{
    assert(s.push(c).map_values(|x: Command| x@) =~= s.map_values(|x: Command| x@).push(c@));
}

/// The command entries of one document, read in order.
fn read_entries(entries: &Vec<(YamlNode, YamlNode)>, commands: &mut Vec<Command>)
    requires
        entries_ok(entries@),
    ensures
        final(commands)@.map_values(|c: Command| c@) == old(commands)@.map_values(|c: Command| c@)
            + entries_commands(entries@),
{
    let ghost start = commands@.map_values(|c: Command| c@);
    let mut e: usize = 0;
    while e < entries.len()
        invariant
            e <= entries@.len(),
            forall|k: int| 0 <= k < entries@.len() ==> entry_ok(#[trigger] entries@[k]),
            commands@.map_values(|c: Command| c@) == start + entries_commands(
                entries@.take(e as int),
            ),
        decreases entries@.len() - e,
    {
        let ghost before = commands@;
        assert(entries@.take(e + 1).drop_last() =~= entries@.take(e as int));
        assert(entries@.take(e + 1).last() == entries@[e as int]);
        match read_entry(&entries[e]) {
            Some(command) => {
                commands.push(command);
                proof {
                    lemma_views_push(before, command);
                }
            },
            None => {},
        }
        e = e + 1;
    }
    assert(entries@.take(entries@.len() as int) =~= entries@);
}

impl CommandSet {
    #[verifier::type_invariant]
    spec fn help_compiles(self) -> bool {
        regex_compiles(self.help@)
    }

    /// Builds the command set from YAML documents that can all be read.
    fn from_docs(docs: &Vec<YamlNode>, help: String) -> (r: CommandSet)
        requires
            docs_ok(docs@),
            regex_compiles(help@),
        ensures
            r@.commands == docs_commands(docs@),
            r@.help == help@,
    {
        let mut commands: Vec<Command> = Vec::new();
        let mut d: usize = 0;
        while d < docs.len()
            invariant
                d <= docs@.len(),
                docs_ok(docs@),
                commands@.map_values(|c: Command| c@) == docs_commands(docs@.take(d as int)),
            decreases docs@.len() - d,
        {
            assert(docs@.take(d + 1).drop_last() =~= docs@.take(d as int));
            assert(docs@.take(d + 1).last() == docs@[d as int]);
            assert(doc_ok(docs@[d as int]));
            read_doc(&docs[d], &mut commands);
            d = d + 1;
        }
        assert(docs@.take(docs@.len() as int) =~= docs@);
        CommandSet { commands, help }
    }

    /// Reads the command configuration: `None` for no configuration file,
    /// else its YAML text. Each document must be a mapping whose `commands`
    /// maps command names to settings (`regex`, and optionally
    /// `description`, `replies` and `execute`); entries with neither
    /// replies nor an action are left out.
    ///
    /// `Err` when the text is not YAML; `Ok(None)` when the configuration
    /// cannot be used because an entry breaks the rules of [`entry_ok`] or
    /// the help pattern does not compile.
    pub fn init(config: Option<String>) -> (r: Result<Option<CommandSet>, ConfigError>)
        ensures
            r is Err <==> regex_compiles(help_pattern()) && (config matches Some(t)
                && yaml_documents(t@) is None),
            r matches Ok(None) <==> !regex_compiles(help_pattern()) || (config matches Some(t)
                && yaml_documents(t@) matches Some(docs) && !docs_ok(docs)),
            r matches Ok(Some(set)) ==> set@.help == help_pattern() && set@.commands == match config {
                Some(t) => docs_commands(yaml_documents(t@).unwrap()),
                None => Seq::empty(),
            },
    {
        let help = String::from_str("^\\.help$");
        if !compiles(help.as_str()) {
            return Ok(None);
        }
        match config {
            None => {
                let set = CommandSet { commands: Vec::new(), help };
                assert(set@.commands =~= Seq::empty());
                Ok(Some(set))
            },
            Some(text) => match load_yaml(text.as_str()) {
                Err(error) => Err(ConfigError::Yaml(error)),
                Ok(docs) => {
                    if docs_acceptable(&docs) {
                        Ok(Some(CommandSet::from_docs(&docs, help)))
                    } else {
                        Ok(None)
                    }
                },
            },
        }
    }

    /// The commands, in order.
    pub fn commands(&self) -> (r: &Vec<Command>)
        ensures
            r@.map_values(|c: Command| c@) == self@.commands,
    {
        &self.commands
    }

    /// Whether [`CommandSet::check_against_commands`] can answer `text`.
    pub fn can_answer(&self, text: &String) -> (r: bool)
        ensures
            r == self@.answerable(text@),
    {
        proof {
            use_type_invariant(self);
        }
        if is_match(self.help.as_str(), text.as_str()) {
            let mut i: usize = 0;
            while i < self.commands.len()
                invariant
                    i <= self.commands@.len(),
                    self@.asks_help(text@),
                    forall|j: int| 0 <= j < i ==> (#[trigger] self@.commands[j]).name is Some,
                decreases self.commands@.len() - i,
            {
                if self.commands[i].name.is_none() {
                    assert(self@.commands[i as int] == self.commands@[i as int]@);
                    assert(self@.commands[i as int].name is None);
                    assert(self@.asks_help(text@));
                    return false;
                }
                i = i + 1;
            }
            true
        } else {
            let mut i: usize = 0;
            while i < self.commands.len()
                invariant
                    i <= self.commands@.len(),
                    !self@.asks_help(text@),
                    forall|j: int| 0 <= j < i ==> !(#[trigger] self@.commands[j]).responds(text@),
                decreases self.commands@.len() - i,
            {
                let command = &self.commands[i];
                proof {
                    use_type_invariant(command);
                }
                if is_match(command.regex.as_str(), text.as_str()) {
                    assert(self@.leads(i as int, text@));
                    let ok = match &command.replies {
                        Some(replies) => replies.len() > 0,
                        None => true,
                    };
                    proof {
                        assert forall|k: int| #[trigger] self@.leads(k, text@) implies k == i by {
                            if k < i {
                            } else if k > i {
                                assert(!self@.commands[i as int].responds(text@));
                            }
                        }
                    }
                    return ok;
                }
                i = i + 1;
            }
            true
        }
    }

    /// Answers a post: for `.help` the listing of all commands, otherwise
    /// the answer of the first command whose pattern matches, or `None`.
    pub fn check_against_commands(&self, text: String) -> (r: Option<String>)
        requires
            self@.answerable(text@),
        ensures
            self@.answers(text@, opt_text(r)),
    {
        proof {
            use_type_invariant(self);
        }
        if is_match(self.help.as_str(), text.as_str()) {
            let mut result = String::new();
            let mut i: usize = 0;
            while i < self.commands.len()
                invariant
                    i <= self.commands@.len(),
                    self@.answerable(text@),
                    self@.asks_help(text@),
                    result@ == help_text(self@.commands.take(i as int)),
                decreases self.commands@.len() - i,
            {
                assert(self@.commands[i as int] == self.commands@[i as int]@);
                let line = help_line(&self.commands[i]);
                result.append(line.as_str());
                assert(self@.commands.take(i + 1).drop_last() =~= self@.commands.take(i as int));
                i = i + 1;
            }
            assert(self@.commands.take(i as int) =~= self@.commands);
            return Some(result);
        }
        let mut i: usize = 0;
        while i < self.commands.len()
            invariant
                i <= self.commands@.len(),
                self@.answerable(text@),
                !self@.asks_help(text@),
                forall|j: int| 0 <= j < i ==> !(#[trigger] self@.commands[j]).responds(text@),
            decreases self.commands@.len() - i,
        {
            let command = &self.commands[i];
            proof {
                assert(self@.commands[i as int] == command@);
                if command@.responds(text@) {
                    assert(self@.leads(i as int, text@));
                }
            }
            match command.check_against(text.clone()) {
                Some(result) => {
                    proof {
                        assert(self@.leads(i as int, text@));
                        assert forall|k: int| #[trigger] self@.leads(k, text@) implies k == i by {
                            if k < i {
                            } else if k > i {
                                assert(!self@.commands[i as int].responds(text@));
                            }
                        }
                    }
                    return Some(result);
                },
                None => {},
            }
            i = i + 1;
        }
        None
    }
}

/// The command's entry in the `.help` listing.
fn help_line(command: &Command) -> (r: String)
    requires
        command@.name is Some,
    ensures
        r@ == command@.help_line(),
{
    let name = match &command.name {
        Some(name) => debug_string(name.as_str()),
        None => {
            proof {
                assert(false);
            }
            String::new()
        },
    };
    let pattern = debug_string(command.regex.as_str());
    let description = command.get_description();
    let description = debug_string(description.as_str());
    let mut line = String::from_str("[b]");
    line.append(name.as_str());
    line.append("[/b]  [code]");
    line.append("Regex(");
    line.append(pattern.as_str());
    line.append(")");
    line.append("[/code]\n");
    line.append(description.as_str());
    line.append("\n");
    line
}

/// When some command's pattern matches a text, a first such command
/// exists.
pub proof fn lemma_first_responder(v: CommandSetView, text: Seq<char>, i: int)
    requires
        0 <= i < v.commands.len(),
        v.commands[i].responds(text),
    ensures
        exists|k: int| #[trigger] v.leads(k, text) && k <= i,
    decreases i,
{
    if forall|j: int| 0 <= j < i ==> !(#[trigger] v.commands[j]).responds(text) {
        assert(v.leads(i, text));
    } else {
        let j = choose|j: int| 0 <= j < i && (#[trigger] v.commands[j]).responds(text);
        lemma_first_responder(v, text, j);
    }
}

/// Every answer to a post other than `.help` comes from a command whose
/// pattern matches the post: it is one of that command's replies, or "not
/// implemented" for a command that names an action.
pub proof fn lemma_answer_from_matching_command(v: CommandSetView, text: Seq<char>, reply: Seq<char>)
    requires
        v.answers(text, Some(reply)),
        !v.asks_help(text),
    ensures
        exists|i: int|
            0 <= i < v.commands.len() && (#[trigger] v.commands[i]).responds(text)
                && v.commands[i].valid_reply(reply),
{
    let i = choose|i: int| 0 <= i < v.commands.len() && (#[trigger] v.commands[i]).responds(text);
    lemma_first_responder(v, text, i);
    let k = choose|k: int| #[trigger] v.leads(k, text) && k <= i;
    assert(v.commands[k].responds(text) && v.commands[k].valid_reply(reply));
}

/// A command that names replies answers with exactly the texts among them;
/// one without replies answers only "not implemented".
pub proof fn lemma_valid_reply(c: CommandView, reply: Seq<char>)
    ensures
        c.replies is Some ==> (c.valid_reply(reply) <==> exists|i: int|
            0 <= i < c.replies.unwrap().len() && #[trigger] c.replies.unwrap()[i] == reply),
        c.replies is None ==> (c.valid_reply(reply) <==> reply == "not implemented"@),
{
}

/// A command responds to a text exactly when its own pattern matches the
/// text.
pub proof fn lemma_responds(c: CommandView, text: Seq<char>)
    ensures
        c.responds(text) == regex_matches(c.regex, text),
{
}

/// At most one command leads on a text: the one whose pattern matches and
/// that comes before every other command whose pattern matches.
pub proof fn lemma_leader_unique(v: CommandSetView, text: Seq<char>, i: int, j: int)
    ensures
        v.leads(i, text) && v.leads(j, text) ==> i == j,
        v.leads(i, text) ==> v.commands[i].responds(text) && forall|k: int|
            0 <= k < v.commands.len() && #[trigger] v.commands[k].responds(text) ==> i <= k,
{
    if v.leads(i, text) && v.leads(j, text) {
        if i < j {
            assert(!v.commands[i].responds(text));
        } else if j < i {
            assert(!v.commands[j].responds(text));
        }
    }
    if v.leads(i, text) {
        assert forall|k: int|
            0 <= k < v.commands.len() && #[trigger] v.commands[k].responds(text) implies i <= k by {
            if k < i {
                assert(!v.commands[k].responds(text));
            }
        }
    }
}

/// The answer to `.help` is the listing and nothing else; when no pattern
/// matches there is no answer; when one does, the answer is the first
/// matching command's.
pub proof fn lemma_answers_cases(v: CommandSetView, text: Seq<char>, reply: Option<Seq<char>>)
    ensures
        v.asks_help(text) ==> (v.answers(text, reply) <==> reply == Some(help_text(v.commands))),
        !v.asks_help(text) && (forall|i: int|
            0 <= i < v.commands.len() ==> !(#[trigger] v.commands[i]).responds(text)) ==> (
        v.answers(text, reply) <==> reply is None),
        !v.asks_help(text) && v.answers(text, reply) ==> forall|i: int|
            #[trigger] v.leads(i, text) ==> (reply is Some && v.commands[i].valid_reply(
                reply.unwrap(),
            )),
        !v.asks_help(text) && v.answers(text, reply) ==> (reply is Some <==> exists|i: int|
            0 <= i < v.commands.len() && (#[trigger] v.commands[i]).responds(text)),
{
}

/// The listing lists each command in order: the listing of two lists one
/// after the other is the two listings one after the other, and a single
/// command's listing is its line.
pub proof fn lemma_help_text_concat(a: Seq<CommandView>, b: Seq<CommandView>)
    ensures
        help_text(a + b) == help_text(a) + help_text(b),
        help_text(Seq::<CommandView>::empty()) == Seq::<char>::empty(),
        forall|c: CommandView| #[trigger] help_text(seq![c]) == c.help_line(),
    decreases b.len(),
{
    assert forall|c: CommandView| #[trigger] help_text(seq![c]) == c.help_line() by {
        assert(seq![c].drop_last() =~= Seq::<CommandView>::empty());
        assert(help_text(seq![c].drop_last()) == Seq::<char>::empty());
        assert(Seq::<char>::empty() + c.help_line() =~= c.help_line());
    }
    if b.len() == 0 {
        assert(a + b =~= a);
        assert(help_text(a) + Seq::<char>::empty() =~= help_text(a));
    } else {
        lemma_help_text_concat(a, b.drop_last());
        assert((a + b).drop_last() =~= a + b.drop_last());
        assert((a + b).last() == b.last());
        assert(help_text(a) + help_text(b.drop_last()) + b.last().help_line() =~= help_text(a) + (
        help_text(b.drop_last()) + b.last().help_line()));
    }
}

/// A command's listing line names it and shows its pattern and its
/// description, in that order.
pub proof fn lemma_help_line(c: CommandView)
    ensures
        c.help_line() == "[b]"@ + str_debug(c.name.unwrap()) + "[/b]  [code]"@ + "Regex("@
            + str_debug(c.regex) + ")"@ + "[/code]\n"@ + str_debug(
            match c.description {
                Some(d) => d,
                None => "No description specified"@,
            },
        ) + "\n"@,
{
    assert(c.help_line() =~= "[b]"@ + str_debug(c.name.unwrap()) + "[/b]  [code]"@ + "Regex("@
        + str_debug(c.regex) + ")"@ + "[/code]\n"@ + str_debug(c.description_text()) + "\n"@);
}

/// The commands read from a list of entries are those of each entry in
/// order: reading two lists one after the other gives the two results one
/// after the other, and a single entry gives its command, if it makes one.
pub proof fn lemma_entries_commands_concat(a: Seq<(YamlNode, YamlNode)>, b: Seq<(YamlNode, YamlNode)>)
    ensures
        entries_commands(a + b) == entries_commands(a) + entries_commands(b),
    decreases b.len(),
{
    if b.len() == 0 {
        assert(a + b =~= a);
        assert(entries_commands(a) + Seq::<CommandView>::empty() =~= entries_commands(a));
    } else {
        lemma_entries_commands_concat(a, b.drop_last());
        assert((a + b).drop_last() =~= a + b.drop_last());
        assert((a + b).last() == b.last());
        let tail = match entry_command(b.last()) {
            Some(c) => seq![c],
            None => Seq::<CommandView>::empty(),
        };
        assert(entries_commands(a) + entries_commands(b.drop_last()) + tail =~= entries_commands(a)
            + (entries_commands(b.drop_last()) + tail));
    }
}

/// An entry makes a command exactly when it has replies or an action, and
/// the command carries the entry's key as its name and the entry's
/// settings.
pub proof fn lemma_entry_command(entry: (YamlNode, YamlNode))
    requires
        entry_ok(entry),
    ensures
        entry_command(entry) is Some <==> match entry.1 {
            YamlNode::Hash(h) => field_list(h@, "replies"@) is Some || field_text(h@, "execute"@) is Some,
            _ => false,
        },
        entry_command(entry) matches Some(c) ==> match entry.1 {
            YamlNode::Hash(h) => {
                &&& c.name == as_text(entry.0)
                &&& Some(c.regex) == field_text(h@, "regex"@)
                &&& c.description == field_text(h@, "description"@)
                &&& c.replies == field_list(h@, "replies"@)
                &&& c.execute == field_text(h@, "execute"@)
                &&& !c.hangman
                &&& regex_compiles(c.regex)
            },
            _ => false,
        },
{
}

} // verus!
