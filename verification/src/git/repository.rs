//! The git commands that read a repository, and what their output means.

use crate::bytes::{find_byte, lemma_first_at};
use crate::git::commit_object::{parse_commit, CommitObject, CommitObjectView, LINE_FEED};
use crate::git::object_hash::{
    hex_encode, lemma_decode_encode, lemma_hex_encode_is_hex_text, parse_hash, ObjectHash,
    HASH_HEX_LEN,
};
use crate::text::ascii_chars;
use vstd::prelude::*;
use vstd::slice::slice_subrange;
use vstd::string::StringExecFns;

verus! {

/// The byte that may stand before a line feed at the end of a line.
pub const CARRIAGE_RETURN: u8 = 0x0d;

/// A command to run.
#[derive(Debug, PartialEq, Eq)]
pub struct GitCommand {
    /// The program.
    pub program: String,
    /// The arguments of the program, in their order.
    pub args: Vec<String>,
    /// The directory to run the program in.
    pub cwd: String,
}

/// The contents of a [`GitCommand`].
pub struct GitCommandView {
    pub program: Seq<char>,
    pub args: Seq<Seq<char>>,
    pub cwd: Seq<char>,
}

impl View for GitCommand {
    type V = GitCommandView;

    open spec fn view(&self) -> GitCommandView {
        GitCommandView { program: self.program@, args: self.args.deep_view(), cwd: self.cwd@ }
    }
}

impl GitCommand {
    /// Adds an argument after those that the command has.
    pub fn arg(&mut self, arg: String)
        ensures
            final(self)@.program == old(self)@.program,
            final(self)@.args == old(self)@.args.push(arg@),
            final(self)@.cwd == old(self)@.cwd,
    {
        self.args.push(arg);
    }
}

/// What a command has left behind.
#[derive(Debug, PartialEq, Eq)]
pub struct GitOutput {
    /// Whether the command has run and has ended well.
    pub success: bool,
    /// What the command has written to its standard output.
    pub stdout: Vec<u8>,
}

/// A git repository in some directory.
#[derive(Debug)]
pub struct GitRepository {
    cwd: String,
}

/// `git` with the arguments `args`, to run in `cwd`.
pub open spec fn git(cwd: Seq<char>, args: Seq<Seq<char>>) -> GitCommandView {
    GitCommandView { program: "git"@, args, cwd }
}

/// The text form of a hash.
pub open spec fn hash_text(hash: Seq<u8>) -> Seq<char> {
    ascii_chars(hex_encode(hash))
}

/// The hash that the output of `git rev-parse` names: the one that its first
/// forty bytes stand for, where the command ended well.
pub open spec fn resolved_hash(success: bool, stdout: Seq<u8>) -> Option<Seq<u8>> {
    if success && stdout.len() >= HASH_HEX_LEN {
        match parse_hash(stdout.take(HASH_HEX_LEN as int)) {
            Ok(hash) => Some(hash),
            Err(_) => None,
        }
    } else {
        None
    }
}

/// `line` without the carriage return at its end, if it has one.
pub open spec fn without_carriage_return(line: Seq<u8>) -> Seq<u8> {
    if line.len() > 0 && line.last() == CARRIAGE_RETURN {
        line.drop_last()
    } else {
        line
    }
}

/// The hash that `line` stands for, as a sequence of one, or the empty
/// sequence where it stands for none.
pub open spec fn hash_of_line(line: Seq<u8>) -> Seq<Seq<u8>> {
    match parse_hash(without_carriage_return(line)) {
        Ok(hash) => seq![hash],
        Err(_) => Seq::empty(),
    }
}

/// The hashes that the lines of `stdout` stand for, in their order. Line feeds
/// separate the lines, and a line that stands for no hash is passed over.
pub open spec fn hashes_of_lines(stdout: Seq<u8>) -> Seq<Seq<u8>>
    decreases stdout.len(),
{
    match stdout.index_of_first(LINE_FEED) {
        Some(n) => {
            proof {
                stdout.index_of_first_ensures(LINE_FEED);
            }
            hash_of_line(stdout.take(n)) + hashes_of_lines(stdout.skip(n + 1))
        },
        None => hash_of_line(stdout),
    }
}

/// The hashes that the output of `git log --format=%H` lists. There are none
/// where the command has failed or has written less than one hash.
pub open spec fn listed_hashes(success: bool, stdout: Seq<u8>) -> Seq<Seq<u8>> {
    if success && stdout.len() >= HASH_HEX_LEN {
        hashes_of_lines(stdout)
    } else {
        Seq::empty()
    }
}

/// The commit object that the output of `git cat-file commit` holds, where
/// the command ended well.
pub open spec fn fetched_commit(success: bool, stdout: Seq<u8>) -> Option<CommitObjectView> {
    if success {
        parse_commit(stdout)
    } else {
        None
    }
}

impl GitRepository {
    /// The directory of the repository.
    pub closed spec fn cwd(&self) -> Seq<char> {
        self.cwd@
    }

    /// The repository in the current directory.
    pub fn new_cwd() -> (r: Self)
        ensures
            r.cwd() == "."@,
    {
        Self { cwd: ".".to_owned() }
    }

    /// The git command `subcommand`, without further arguments.
    fn command(&self, subcommand: &str) -> (r: GitCommand)
        ensures
            r@ == git(self.cwd(), seq![subcommand@]),
    {
        let mut args: Vec<String> = Vec::new();
        args.push(subcommand.to_owned());
        let r = GitCommand { program: "git".to_owned(), args, cwd: self.cwd.clone() };
        assert(r@.args =~= seq![subcommand@]);
        r
    }

    /// The command that resolves the revision `name` to a hash.
    pub fn rev_parse_command(&self, name: &str) -> (r: GitCommand)
        ensures
            r@ == git(self.cwd(), seq!["rev-parse"@, name@]),
    {
        let mut command = self.command("rev-parse");
        command.arg(name.to_owned());
        assert(command@.args =~= seq!["rev-parse"@, name@]);
        command
    }

    /// The command that lists the commits that `head` has and `base` has not,
    /// the latest first.
    pub fn get_commits_command(&self, head: ObjectHash, base: ObjectHash) -> (r: GitCommand)
        ensures
            r@ == git(
                self.cwd(),
                seq!["log"@, "--format=%H"@, hash_text(head@), "^"@ + hash_text(base@)],
            ),
    {
        let mut command = self.command("log");
        command.arg("--format=%H".to_owned());
        command.arg(head.to_hex_string());
        let mut not_base = "^".to_owned();
        not_base.append(base.to_hex_string().as_str());
        command.arg(not_base);
        assert(command@.args =~= seq![
            "log"@,
            "--format=%H"@,
            hash_text(head@),
            "^"@ + hash_text(base@),
        ]);
        command
    }

    /// The command that writes out the commit object `hash`.
    pub fn get_commit_command(&self, hash: ObjectHash) -> (r: GitCommand)
        ensures
            r@ == git(self.cwd(), seq!["cat-file"@, "commit"@, hash_text(hash@)]),
    {
        let mut command = self.command("cat-file");
        command.arg("commit".to_owned());
        command.arg(hash.to_hex_string());
        assert(command@.args =~= seq!["cat-file"@, "commit"@, hash_text(hash@)]);
        command
    }

    /// Reads the hash of a revision from the output of
    /// [`rev_parse_command`](Self::rev_parse_command).
    pub fn rev_parse(&self, output: &GitOutput) -> (r: Option<ObjectHash>)
        ensures
            r.deep_view() == resolved_hash(output.success, output.stdout@),
    {
        if !output.success || output.stdout.len() < HASH_HEX_LEN {
            return None;
        }
        match ObjectHash::from_hex(slice_subrange(output.stdout.as_slice(), 0, HASH_HEX_LEN)) {
            Ok(hash) => Some(hash),
            Err(_) => None,
        }
    }

    /// Reads the hashes of the commits from the output of
    /// [`get_commits_command`](Self::get_commits_command).
    pub fn get_commits(&self, output: &GitOutput) -> (r: Vec<ObjectHash>)
        ensures
            r.deep_view() == listed_hashes(output.success, output.stdout@),
    {
        let mut hashes: Vec<ObjectHash> = Vec::new();
        if !output.success || output.stdout.len() < HASH_HEX_LEN {
            return hashes;
        }
        let stdout = output.stdout.as_slice();
        let mut unread = stdout;
        loop
            invariant_except_break
                hashes_of_lines(stdout@) == hashes.deep_view() + hashes_of_lines(unread@),
            ensures
                hashes_of_lines(stdout@) == hashes.deep_view(),
            decreases unread@.len(),
        {
            proof {
                unread@.index_of_first_ensures(LINE_FEED);
            }
            let len = unread.len();
            let (line, rest) = match find_byte(unread, LINE_FEED) {
                Some(n) => (slice_subrange(unread, 0, n), Some(slice_subrange(unread, n + 1, len))),
                None => (unread, None),
            };
            let line = if line.len() > 0 && line[line.len() - 1] == CARRIAGE_RETURN {
                slice_subrange(line, 0, line.len() - 1)
            } else {
                line
            };
            if line.len() > 0 {
                if let Ok(hash) = ObjectHash::from_hex(line) {
                    hashes.push(hash);
                }
            }
            match rest {
                Some(rest) => {
                    unread = rest;
                },
                None => {
                    break;
                },
            }
        }
        hashes
    }

    /// Reads the commit object from the output of
    /// [`get_commit_command`](Self::get_commit_command).
    pub fn get_commit(&self, output: &GitOutput) -> (r: Option<CommitObject>)
        ensures
            match r {
                Some(commit) => fetched_commit(output.success, output.stdout@) == Some(commit@),
                None => fetched_commit(output.success, output.stdout@) is None,
            },
    {
        if !output.success {
            return None;
        }
        CommitObject::parse(output.stdout.as_slice())
    }
}

/// Nothing is read from what a failed command has written: no hash of a
/// revision, no hashes of commits and no commit object.
pub proof fn lemma_failed_command_gives_nothing(stdout: Seq<u8>)
    ensures
        resolved_hash(false, stdout) is None,
        listed_hashes(false, stdout) == Seq::<Seq<u8>>::empty(),
        fetched_commit(false, stdout) is None,
{
}

/// The lines that `git log --format=%H` writes for `hashes`: the text form of
/// each hash and a line feed.
pub open spec fn log_text(hashes: Seq<Seq<u8>>) -> Seq<u8>
    decreases hashes.len(),
{
    if hashes.len() == 0 {
        Seq::empty()
    } else {
        hex_encode(hashes.first()) + seq![LINE_FEED] + log_text(hashes.drop_first())
    }
}

/// The hash of a revision is read as git writes it: from its text form,
/// whatever follows that.
pub proof fn lemma_written_hash_is_resolved(hash: ObjectHash, rest: Seq<u8>)
    ensures
        resolved_hash(true, hex_encode(hash@) + rest) == Some(hash@),
{
    hash.lemma_len();
    lemma_decode_encode(hash);
}

/// The lines that git writes for hashes stand for those hashes.
proof fn lemma_lines_of_written_hashes(hashes: Seq<ObjectHash>)
    ensures
        hashes_of_lines(log_text(hashes.map_values(|hash: ObjectHash| hash@)))
            == hashes.map_values(|hash: ObjectHash| hash@),
        hashes.len() > 0 ==> log_text(hashes.map_values(|hash: ObjectHash| hash@)).len()
            > HASH_HEX_LEN,
    decreases hashes.len(),
{
    let views = hashes.map_values(|hash: ObjectHash| hash@);
    let text = log_text(views);
    if hashes.len() == 0 {
        text.index_of_first_ensures(LINE_FEED);
    } else {
        let first = hashes.first();
        let line = hex_encode(first@);
        let rest = log_text(views.drop_first());
        first.lemma_len();
        lemma_decode_encode(first);
        lemma_hex_encode_is_hex_text(first@);
        lemma_lines_of_written_hashes(hashes.drop_first());
        assert(views.drop_first() =~= hashes.drop_first().map_values(|hash: ObjectHash| hash@));
        lemma_first_at(text, LINE_FEED, HASH_HEX_LEN as int);
        assert(text.take(HASH_HEX_LEN as int) =~= line);
        assert(text.skip(HASH_HEX_LEN as int + 1) =~= rest);
    }
}

/// The hashes of commits are read as git writes them: each on a line of its
/// own, in their order.
pub proof fn lemma_written_hashes_are_listed(hashes: Seq<ObjectHash>)
    ensures
        listed_hashes(true, log_text(hashes.map_values(|hash: ObjectHash| hash@)))
            == hashes.map_values(|hash: ObjectHash| hash@),
{
    lemma_lines_of_written_hashes(hashes);
}

} // verus!
