//! The rules of the command-line tool: how it ends, what it does with a
//! destination that exists, which names it gives to what it makes.

use crate::text::{chars_of, string_of};
use vstd::prelude::*;
use vstd::string::StringExecFns;

verus! {

/// The message of the one commit that the tool makes.
pub const DEFAULT_COMMIT_MESSAGE: &'static str = "Initial commit";

/// The author name used where none is given.
pub const DEFAULT_AUTHOR_NAME: &'static str = "gitripper";

/// The author address used where none is given.
pub const DEFAULT_AUTHOR_EMAIL: &'static str = "gitripper@localhost";

/// What is added to the name of a repository to name its copy.
pub const COPY_SUFFIX: &'static str = "-copy";

/// The start of the name of a downloaded archive.
pub const ARCHIVE_PREFIX: &'static str = "archive-";

/// The end of the name of a downloaded archive.
pub const ARCHIVE_SUFFIX: &'static str = ".zip";

/// The name of the directory in which git keeps a repository.
pub const GIT_DIRECTORY: &'static str = ".git";

/// Why the tool gives up.
#[derive(Debug, Clone, Copy, PartialEq, Eq, Structural)]
pub enum Failure {
    /// The URL names no repository.
    InvalidUrl,
    /// The destination holds something and may not be overwritten.
    DestExists,
    /// The destination could not be cleared.
    CleanupFailed,
    /// No git is installed.
    GitNotFound,
    /// The archive could not be downloaded.
    DownloadFailed,
    /// The archive could not be extracted.
    ExtractionFailed,
    /// The new repository could not be set up.
    InitFailed,
}

impl Failure {
    /// The exit code of the process for this failure.
    pub open spec fn spec_exit_code(self) -> i32 {
        match self {
            Failure::InvalidUrl => 2,
            Failure::DestExists => 3,
            Failure::CleanupFailed => 4,
            Failure::GitNotFound => 5,
            Failure::DownloadFailed => 6,
            Failure::ExtractionFailed => 7,
            Failure::InitFailed => 8,
        }
    }

    /// The exit code of the process for this failure: 2 to 8, in the order
    /// in which the failures can occur.
    #[verifier::when_used_as_spec(spec_exit_code)]
    pub fn exit_code(self) -> (code: i32)
        ensures
            code == self.spec_exit_code(),
            2 <= code <= 8,
    {
        match self {
            Failure::InvalidUrl => 2,
            Failure::DestExists => 3,
            Failure::CleanupFailed => 4,
            Failure::GitNotFound => 5,
            Failure::DownloadFailed => 6,
            Failure::ExtractionFailed => 7,
            Failure::InitFailed => 8,
        }
    }
}

/// Different failures end the process with different codes.
pub proof fn lemma_exit_codes_differ(first: Failure, second: Failure)
    ensures
        first.spec_exit_code() == second.spec_exit_code() ==> first == second,
{
}

/// Accepts the owner and the name of a repository when neither is empty.
pub fn check_repo_names(owner: &str, repo: &str) -> (r: Result<(), Failure>)
    ensures
        r is Ok <==> owner@.len() > 0 && repo@.len() > 0,
        r is Err ==> r == Err::<(), Failure>(Failure::InvalidUrl),
{
    if owner.is_empty() || repo.is_empty() {
        Err(Failure::InvalidUrl)
    } else {
        Ok(())
    }
}

/// What to do with the destination before anything is written to it.
#[derive(Debug, Clone, Copy, PartialEq, Eq, Structural)]
pub enum DestinationAction {
    /// Write into it as it is.
    Use,
    /// Remove it with all it holds, then write.
    Clear,
    /// Give up: it holds something and may not be overwritten.
    Refuse,
}

/// What to do with a destination. One that does not exist is used. One that
/// exists is cleared when overwriting is allowed, refused when it holds
/// something, and used as it is when it is empty.
pub open spec fn spec_destination_action(present: bool, not_empty: bool, force: bool) -> DestinationAction {
    if !present {
        DestinationAction::Use
    } else if force {
        DestinationAction::Clear
    } else if not_empty {
        DestinationAction::Refuse
    } else {
        DestinationAction::Use
    }
}

/// Decides what to do with the destination: `present` says whether it is
/// there, `not_empty` whether it holds anything, `force` whether it may be
/// overwritten.
#[verifier::when_used_as_spec(spec_destination_action)]
pub fn destination_action(present: bool, not_empty: bool, force: bool) -> (action: DestinationAction)
    ensures
        action == spec_destination_action(present, not_empty, force),
{
    if !present {
        DestinationAction::Use
    } else if force {
        DestinationAction::Clear
    } else if not_empty {
        DestinationAction::Refuse
    } else {
        DestinationAction::Use
    }
}

/// Nothing that exists is removed unless overwriting was allowed, and
/// nothing is written into a destination that holds something unless it was
/// cleared first.
pub proof fn lemma_destination_is_safe(present: bool, not_empty: bool, force: bool)
    ensures
        spec_destination_action(present, not_empty, force) == DestinationAction::Clear ==> present
            && force,
        spec_destination_action(present, not_empty, force) == DestinationAction::Use ==> !present
            || !not_empty,
{
}

/// The destination used where none is given: the name of the repository
/// followed by `-copy`.
pub fn default_destination(repo: &str) -> (name: String)
    ensures
        name@ == repo@ + COPY_SUFFIX@,
{
    let mut name = String::from_str(repo);
    name.append(COPY_SUFFIX);
    name
}

/// The decimal digit for `d`.
pub open spec fn digit(d: nat) -> char
    recommends
        d < 10,
{
    if d == 0 {
        '0'
    } else if d == 1 {
        '1'
    } else if d == 2 {
        '2'
    } else if d == 3 {
        '3'
    } else if d == 4 {
        '4'
    } else if d == 5 {
        '5'
    } else if d == 6 {
        '6'
    } else if d == 7 {
        '7'
    } else if d == 8 {
        '8'
    } else {
        '9'
    }
}

/// The decimal numeral of `n`, without leading zeros.
pub open spec fn decimal(n: nat) -> Seq<char>
    decreases n,
{
    if n < 10 {
        seq![digit(n)]
    } else {
        decimal(n / 10).push(digit(n % 10))
    }
}

/// The decimal digit for `d`.
fn digit_of(d: u8) -> (c: char)
    requires
        d < 10,
    ensures
        c == digit(d as nat),
{
    if d == 0 {
        '0'
    } else if d == 1 {
        '1'
    } else if d == 2 {
        '2'
    } else if d == 3 {
        '3'
    } else if d == 4 {
        '4'
    } else if d == 5 {
        '5'
    } else if d == 6 {
        '6'
    } else if d == 7 {
        '7'
    } else if d == 8 {
        '8'
    } else {
        '9'
    }
}

/// The decimal numeral of `n`.
pub fn decimal_of(n: u128) -> (digits: Vec<char>)
    ensures
        digits@ == decimal(n as nat),
{
    let mut reversed: Vec<char> = Vec::new();
    let mut rest: u128 = n;
    while rest >= 10
        invariant
            decimal(n as nat) == decimal(rest as nat) + reversed@.reverse(),
        decreases rest,
    {
        let ghost before = reversed@;
        let d = (rest % 10) as u8;
        reversed.push(digit_of(d));
        proof {
            let c = digit((rest % 10) as nat);
            assert(reversed@ == before.push(c));
            assert(reversed@.reverse() =~= seq![c] + before.reverse());
            assert(decimal(rest as nat) == decimal((rest / 10) as nat).push(c));
            assert(decimal((rest / 10) as nat).push(c) + before.reverse() =~= decimal(
                (rest / 10) as nat,
            ) + (seq![c] + before.reverse()));
        }
        rest = rest / 10;
    }
    let mut digits: Vec<char> = Vec::new();
    digits.push(digit_of(rest as u8));
    let ghost head = digits@;
    assert(head == decimal(rest as nat));
    let mut i: usize = reversed.len();
    assert(reversed@.reverse().take(0) =~= Seq::<char>::empty());
    while i > 0
        invariant
            i <= reversed.len(),
            digits@ == head + reversed@.reverse().take(reversed.len() - i),
        decreases i,
    {
        let ghost done = reversed@.reverse().take(reversed.len() - i);
        i -= 1;
        digits.push(reversed[i]);
        proof {
            let k = reversed.len() - i - 1;
            assert(reversed@.reverse()[k] == reversed@[i as int]);
            assert(reversed@.reverse().take(k + 1) =~= done.push(reversed@[i as int]));
            assert(digits@ =~= head + reversed@.reverse().take(k + 1));
        }
    }
    assert(reversed@.reverse().take(reversed.len() as int) =~= reversed@.reverse());
    digits
}

/// The name under which an archive downloaded at `nanos` nanoseconds after
/// the epoch is kept: `archive-`, the number, `.zip`.
pub fn archive_file_name(nanos: u128) -> (name: String)
    ensures
        name@ == ARCHIVE_PREFIX@ + decimal(nanos as nat) + ARCHIVE_SUFFIX@,
{
    let mut name = String::from_str(ARCHIVE_PREFIX);
    let number = string_of(&decimal_of(nanos));
    name.append(number.as_str());
    name.append(ARCHIVE_SUFFIX);
    name
}

/// Whether a directory entry found below the destination is the repository
/// data of an embedded repository: a directory named `.git`.
pub fn is_embedded_git(is_dir: bool, name: &str) -> (b: bool)
    ensures
        b == (is_dir && name@ == GIT_DIRECTORY@),
{
    if !is_dir {
        return false;
    }
    let chars = chars_of(name);
    proof {
        reveal_strlit(".git");
    }
    let same = chars.len() == 4 && chars[0] == '.' && chars[1] == 'g' && chars[2] == 'i' && chars[3]
        == 't';
    proof {
        if same {
            assert(name@ =~= GIT_DIRECTORY@);
        }
    }
    same
}

/// What to do with a target that is in the way of a move.
#[derive(Debug, Clone, Copy, PartialEq, Eq, Structural)]
pub enum ExistingTarget {
    /// The target is a directory: remove it with all it holds.
    RemoveDirectory,
    /// The target is a file with the content of the source: drop the source
    /// and keep the target.
    KeepTarget,
    /// The target is another file: remove it.
    RemoveFile,
}

/// What to do with a target that exists. `same_content` says whether source
/// and target are files whose contents could both be read and are the same.
pub fn existing_target_action(target_is_dir: bool, same_content: bool) -> (action: ExistingTarget)
    ensures
        action == if target_is_dir {
            ExistingTarget::RemoveDirectory
        } else if same_content {
            ExistingTarget::KeepTarget
        } else {
            ExistingTarget::RemoveFile
        },
{
    if target_is_dir {
        ExistingTarget::RemoveDirectory
    } else if same_content {
        ExistingTarget::KeepTarget
    } else {
        ExistingTarget::RemoveFile
    }
}

/// How to move a source whose renaming failed.
#[derive(Debug, Clone, Copy, PartialEq, Eq, Structural)]
pub enum MoveFallback {
    /// Copy the directory with all it holds, then remove the source.
    CopyTree,
    /// Make the directory above the target, link the file to the target or,
    /// where that fails too, copy it; then remove the source.
    LinkOrCopy,
}

/// How to move a source whose renaming failed: a directory is copied, a
/// file is linked or copied.
pub fn move_fallback(source_is_dir: bool) -> (fallback: MoveFallback)
    ensures
        fallback == if source_is_dir {
            MoveFallback::CopyTree
        } else {
            MoveFallback::LinkOrCopy
        },
{
    if source_is_dir {
        MoveFallback::CopyTree
    } else {
        MoveFallback::LinkOrCopy
    }
}

} // verus!
