//! Naming and publishing for the atomic rewrite.
//!
//! A rewrite never touches the target file in place: the new content is
//! staged in a freshly named temporary file beside it, the target is moved
//! aside to a backup name, the staged file is moved onto the target's name,
//! and the backup is removed.  This module holds the naming discipline, the
//! decision taken after each attempt to create a candidate, the ordered plan
//! of the publish step, and the proof that no instant of the publish shows a
//! half-written target or loses the original content while a backup exists.

use crate::replace::ReplaceError;
use vstd::prelude::*;

verus! {

/// The decimal digits of `n`, most significant first, without leading
/// zeroes (a lone zero is written `0`).
pub open spec fn decimal(n: nat) -> Seq<char>
    decreases n,
{
    if n < 10 {
        seq![decimal_digit(n)]
    } else {
        decimal(n / 10).push(decimal_digit(n % 10))
    }
}

/// The character for one decimal digit.
pub open spec fn decimal_digit(d: nat) -> char {
    if d == 0 {
        '0'
    } else if d == 1 {
        '1'
    } else if d == 2 {
        '2'
    } else if d == 3 {
        '3'
    } else if d == 4 {
        '4'
    } else if d == 5 {
        '5'
    } else if d == 6 {
        '6'
    } else if d == 7 {
        '7'
    } else if d == 8 {
        '8'
    } else {
        '9'
    }
}

fn digit_str(d: u32) -> (r: &'static str)
    requires
        d < 10,
    ensures
        r@ == seq![decimal_digit(d as nat)],
{
    match d {
        0 => {
            proof {
                reveal_strlit("0");
                assert("0"@ =~= seq!['0']);
            }
            "0"
        },
        1 => {
            proof {
                reveal_strlit("1");
                assert("1"@ =~= seq!['1']);
            }
            "1"
        },
        2 => {
            proof {
                reveal_strlit("2");
                assert("2"@ =~= seq!['2']);
            }
            "2"
        },
        3 => {
            proof {
                reveal_strlit("3");
                assert("3"@ =~= seq!['3']);
            }
            "3"
        },
        4 => {
            proof {
                reveal_strlit("4");
                assert("4"@ =~= seq!['4']);
            }
            "4"
        },
        5 => {
            proof {
                reveal_strlit("5");
                assert("5"@ =~= seq!['5']);
            }
            "5"
        },
        6 => {
            proof {
                reveal_strlit("6");
                assert("6"@ =~= seq!['6']);
            }
            "6"
        },
        7 => {
            proof {
                reveal_strlit("7");
                assert("7"@ =~= seq!['7']);
            }
            "7"
        },
        8 => {
            proof {
                reveal_strlit("8");
                assert("8"@ =~= seq!['8']);
            }
            "8"
        },
        _ => {
            proof {
                reveal_strlit("9");
                assert("9"@ =~= seq!['9']);
            }
            "9"
        },
    }
}

fn push_decimal(s: &mut String, n: u32)
    ensures
        final(s)@ == old(s)@ + decimal(n as nat),
    decreases n,
{
    if n >= 10 {
        push_decimal(s, n / 10);
    }
    let d = digit_str(n % 10);
    s.append(d);
    proof {
        if n < 10 {
            assert(final(s)@ =~= old(s)@ + decimal(n as nat));
        } else {
            assert(decimal(n as nat) == decimal((n / 10) as nat).push(decimal_digit((n % 10) as nat)));
            assert(final(s)@ =~= old(s)@ + decimal(n as nat));
        }
    }
}

/// A candidate name for a scratch file beside `filename`: the file's own
/// name, the suffix, and the candidate's index in decimal.
pub open spec fn temp_name(filename: Seq<char>, suffix: Seq<char>, index: nat) -> Seq<char> {
    filename + suffix + decimal(index)
}

/// Build one candidate name.
pub fn gen_temp_filename(filename: &str, suffix: &str, index: u32) -> (r: String)
    ensures
        r@ == temp_name(filename@, suffix@, index as nat),
{
    let mut ret = filename.to_owned();
    ret.append(suffix);
    push_decimal(&mut ret, index);
    proof {
        assert(ret@ =~= temp_name(filename@, suffix@, index as nat));
    }
    ret
}

/// What the program reports back after trying to create one candidate.
pub enum CreateOutcome {
    /// The file was created under the candidate name.
    Created,
    /// The candidate name is already taken.
    NameTaken,
    /// Creation failed for any other reason; fatal for this file only.
    Failed { err: String },
}

/// What staging does next.
pub enum StageStep {
    /// Keep the file just created under this name.
    Use { name: String },
    /// Try the next candidate.
    Retry { next_index: u32 },
    /// Give up on this file.
    Fail { err: ReplaceError },
}

/// Decide how staging goes on after one creation attempt: a created
/// candidate is kept, a taken name moves to the next index, and any other
/// failure gives the file up with the error's text.
pub fn stage_step(filename: &str, suffix: &str, index: u32, outcome: CreateOutcome) -> (r:
    StageStep)
    requires
        index < u32::MAX,
    ensures
        outcome is Created ==> (r matches StageStep::Use { name } && name@ == temp_name(
            filename@,
            suffix@,
            index as nat,
        )),
        outcome is NameTaken ==> (r matches StageStep::Retry { next_index } && next_index == index
            + 1),
        outcome matches CreateOutcome::Failed { err } ==> (r matches StageStep::Fail { err: e }
            && e == ReplaceError::IOError(err)),
{
    match outcome {
        CreateOutcome::Created => StageStep::Use {
            name: gen_temp_filename(filename, suffix, index),
        },
        CreateOutcome::NameTaken => StageStep::Retry { next_index: index + 1 },
        CreateOutcome::Failed { err } => StageStep::Fail { err: ReplaceError::IOError(err) },
    }
}

/// One move or removal of the publish step.
pub enum FileOp {
    /// Move a file to a new name: a rename, or a copy followed by removing
    /// the source where renaming is not possible.
    Move { from: String, to: String },
    /// Remove a file.
    Remove { name: String },
}

/// The ordered publish plan for a staged rewrite: save the target under the
/// backup name, move the staged file onto the target, then remove the
/// backup.  The plan holds exactly these three operations in this order.
pub fn publish_plan(target: &str, temp: &str, backup: &str) -> (v: Vec<FileOp>)
    ensures
        v@.len() == 3,
        v@[0] matches FileOp::Move { from, to } && from@ == target@ && to@ == backup@,
        v@[1] matches FileOp::Move { from, to } && from@ == temp@ && to@ == target@,
        v@[2] matches FileOp::Remove { name } && name@ == backup@,
{
    let mut v: Vec<FileOp> = Vec::new();
    v.push(FileOp::Move { from: target.to_owned(), to: backup.to_owned() });
    v.push(FileOp::Move { from: temp.to_owned(), to: target.to_owned() });
    v.push(FileOp::Remove { name: backup.to_owned() });
    v
}

/// A directory snapshot after a file is copied: the destination now holds
/// the source's whole content.
pub open spec fn after_copy(
    fs: Map<Seq<char>, Seq<char>>,
    from: Seq<char>,
    to: Seq<char>,
) -> Map<Seq<char>, Seq<char>> {
    fs.insert(to, fs[from])
}

/// A directory snapshot after a file is moved: the destination holds the
/// source's whole content and the source is gone.  A rename reaches this
/// snapshot in one step; the copy-then-remove fallback passes through
/// [`after_copy`] first.
pub open spec fn after_move(
    fs: Map<Seq<char>, Seq<char>>,
    from: Seq<char>,
    to: Seq<char>,
) -> Map<Seq<char>, Seq<char>> {
    fs.insert(to, fs[from]).remove(from)
}

/// A directory snapshot after a file is removed.
pub open spec fn after_remove(
    fs: Map<Seq<char>, Seq<char>>,
    name: Seq<char>,
) -> Map<Seq<char>, Seq<char>> {
    fs.remove(name)
}

/// At no instant of the publish is the target half-written, and the
/// original content is never lost while a backup exists.  Starting from a
/// snapshot where the target holds the original content and the staged file
/// holds the new content in full, the publish plan passes through the
/// snapshots below, copy fallbacks included; in each of them the target
/// path, where present at all, holds wholly the original or wholly the new
/// content, and until the backup is removed the original content stays
/// readable under the target or the backup name.  Stopping after any step
/// therefore leaves the target fully original or fully new, never mixed.
pub proof fn lemma_publish_atomic(
    fs0: Map<Seq<char>, Seq<char>>,
    target: Seq<char>,
    temp: Seq<char>,
    backup: Seq<char>,
    orig: Seq<char>,
    newc: Seq<char>,
)
    requires
        fs0.contains_key(target) && fs0[target] == orig,
        fs0.contains_key(temp) && fs0[temp] == newc,
        target != temp,
        target != backup,
        temp != backup,
    ensures
        ({
            // saving the target: the copy fallback's instant where both
            // names exist, then the completed move
            let c1 = after_copy(fs0, target, backup);
            let m1 = after_move(fs0, target, backup);
            &&& c1[target] == orig && c1[backup] == orig
            &&& !m1.contains_key(target) && m1[backup] == orig && m1[temp] == newc
        }),
        ({
            // swapping the staged file in: the copy instant, then the
            // completed move
            let m1 = after_move(fs0, target, backup);
            let c2 = after_copy(m1, temp, target);
            let m2 = after_move(m1, temp, target);
            &&& c2[target] == newc && c2[backup] == orig
            &&& m2[target] == newc && m2[backup] == orig && !m2.contains_key(temp)
        }),
        ({
            // removing the backup: the rewrite is fully published
            let m1 = after_move(fs0, target, backup);
            let m2 = after_move(m1, temp, target);
            let m3 = after_remove(m2, backup);
            &&& m3[target] == newc
            &&& !m3.contains_key(backup) && !m3.contains_key(temp)
        }),
{
}

} // verus!
