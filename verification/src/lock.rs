//! Sidecar lock files: what they say, and when a process may take one over.
use vstd::prelude::*;

use crate::error::{decimal, decimal_text, ErrorView, IoKind, SpindleError};
use crate::paths::{
    file_name_of, law_file_name_has_no_slash, law_renamed_file_stays_in_its_directory, parent_of,
    path_file_name, path_with_name, with_name,
};
use crate::text::{chars_of, optional_view, same_text};

verus! {

/// How long to wait before trying again.
pub const POLL_INTERVAL_MS: u64 = 10;

/// How long to wait for a lock unless told otherwise.
pub const DEFAULT_TIMEOUT_MS: u64 = 5000;

/// How old a malformed lock file must be before it counts as abandoned.
pub const MALFORMED_STALE_AFTER_MS: u64 = 1000;

/// A lock that this process holds.
#[derive(Debug, PartialEq, Eq)]
pub struct SidecarLock {
    /// The lock file.
    pub path: String,
    /// The token that marks the lock as this one.
    pub token: String,
}

/// Who holds a lock.
#[derive(Debug, PartialEq, Eq)]
pub struct LockOwner {
    /// Process identifier.
    pub pid: u32,
    /// The token of the lock.
    pub token: String,
}

/// What tells one lock file from another under the same path.
#[derive(Debug, Clone, Copy, PartialEq, Eq, Structural)]
pub struct LockFileIdentity {
    /// Device number.
    pub dev: u64,
    /// Inode number.
    pub ino: u64,
}

/// What was found at the path of a lock file.
#[derive(Debug, PartialEq, Eq)]
pub enum LockRead {
    /// There is no file.
    Missing,
    /// A file that names its owner.
    Owner {
        /// The owner.
        owner: LockOwner,
        /// The file.
        identity: LockFileIdentity,
    },
    /// A file that names no owner.
    Malformed {
        /// How long ago the file was written, if that is known.
        age_ms: Option<u64>,
        /// The file.
        identity: LockFileIdentity,
    },
}

/// Where a character first occurs, or the length of the text.
pub open spec fn first_index(text: Seq<char>, c: char) -> int
    decreases text.len(),
{
    if text.len() == 0 || text[0] == c {
        0
    } else {
        1 + first_index(text.drop_first(), c)
    }
}

/// A line without the carriage return in front of its line feed.
pub open spec fn without_return(line: Seq<char>) -> Seq<char> {
    if line.len() > 0 && line.last() == '\r' {
        line.drop_last()
    } else {
        line
    }
}

/// The lines of a text. Each ends with a line feed, or with a carriage return and
/// a line feed, neither of which belongs to it; the last one may end with the
/// text.
pub open spec fn lines_of(text: Seq<char>) -> Seq<Seq<char>>
    decreases text.len(),
{
    let end = first_index(text, '\n');
    if text.len() == 0 {
        Seq::empty()
    } else if end >= text.len() || end < 0 {
        seq![text]
    } else {
        seq![without_return(text.take(end))] + lines_of(text.skip(end + 1))
    }
}

/// Whether a text starts with a prefix.
pub open spec fn starts_with(text: Seq<char>, prefix: Seq<char>) -> bool {
    prefix.len() <= text.len() && text.take(prefix.len() as int) == prefix
}

/// Whether a character is a decimal digit.
pub open spec fn is_digit(c: char) -> bool {
    '0' <= c <= '9'
}

/// The number that decimal digits stand for.
pub open spec fn digits_value(digits: Seq<char>) -> nat
    decreases digits.len(),
{
    if digits.len() == 0 {
        0
    } else {
        (digits_value(digits.drop_last()) * 10 + (digits.last() as u32 - '0' as u32)) as nat
    }
}

/// The digits of a number, without the `+` that may stand in front.
pub open spec fn unsigned_digits(text: Seq<char>) -> Seq<char> {
    if text.len() > 1 && text[0] == '+' {
        text.drop_first()
    } else {
        text
    }
}

/// The 32 bit number that a text stands for: an optional `+` and digits.
pub open spec fn parsed_u32(text: Seq<char>) -> Option<u32> {
    let digits = unsigned_digits(text);
    if digits.len() > 0 && (forall|i: int| 0 <= i < digits.len() ==> is_digit(#[trigger] digits[i]))
        && digits_value(digits) <= u32::MAX {
        Some(digits_value(digits) as u32)
    } else {
        None
    }
}

/// The process that lock lines name: the last `pid=` line decides.
pub open spec fn pid_in(lines: Seq<Seq<char>>) -> Option<u32>
    decreases lines.len(),
{
    if lines.len() == 0 {
        None
    } else if starts_with(lines.last(), "pid="@) {
        parsed_u32(lines.last().skip(4))
    } else {
        pid_in(lines.drop_last())
    }
}

/// The token that lock lines give: the last `token=` line decides.
pub open spec fn token_in(lines: Seq<Seq<char>>) -> Seq<char>
    decreases lines.len(),
{
    if lines.len() == 0 {
        Seq::empty()
    } else if starts_with(lines.last(), "token="@) {
        lines.last().skip(6)
    } else {
        token_in(lines.drop_last())
    }
}

/// What a process writes into its lock file.
pub open spec fn lock_text(pid: nat, token: Seq<char>) -> Seq<char> {
    "pid="@ + decimal(pid) + "\ntoken="@ + token + "\n"@
}

proof fn lemma_first_index(text: Seq<char>, c: char, at: int)
    requires
        0 <= at <= text.len(),
        forall|j: int| 0 <= j < at ==> text[j] != c,
        at < text.len() ==> text[at] == c,
    ensures
        first_index(text, c) == at,
    decreases at,
{
    if at > 0 {
        assert(text[0] != c);
        assert forall|j: int| 0 <= j < at - 1 implies text.drop_first()[j] != c by {
            assert(text.drop_first()[j] == text[j + 1]);
        }
        lemma_first_index(text.drop_first(), c, at - 1);
    }
}

fn line_end(chars: &Vec<char>, start: usize) -> (end: usize)
    requires
        start <= chars@.len(),
    ensures
        start <= end <= chars@.len(),
        end - start == first_index(chars@.skip(start as int), '\n'),
        end < chars@.len() ==> chars@[end as int] == '\n',
{
    let mut end: usize = start;
    while end < chars.len() && chars[end] != '\n'
        invariant
            start <= end <= chars@.len(),
            forall|j: int| start <= j < end ==> chars@[j] != '\n',
        decreases chars@.len() - end,
    {
        end = end + 1;
    }
    proof {
        let rest = chars@.skip(start as int);
        assert forall|j: int| 0 <= j < end - start implies rest[j] != '\n' by {
            assert(rest[j] == chars@[start + j]);
        }
        lemma_first_index(rest, '\n', end - start);
    }
    end
}

/// Whether a text starts with a prefix.
pub fn text_starts_with(text: &str, prefix: &str) -> (answer: bool)
    ensures
        answer == starts_with(text@, prefix@),
{
    let chars: Vec<char> = chars_of(text);
    let wanted: Vec<char> = chars_of(prefix);
    if wanted.len() > chars.len() {
        return false;
    }
    same_text(text.substring_char(0, wanted.len()), prefix)
}

/// The 32 bit number that a text stands for.
pub fn parse_u32(text: &str) -> (number: Option<u32>)
    ensures
        number == parsed_u32(text@),
{
    let chars: Vec<char> = chars_of(text);
    let start: usize = if chars.len() > 1 && chars[0] == '+' {
        1
    } else {
        0
    };
    let ghost digits = unsigned_digits(text@);
    assert(digits =~= chars@.skip(start as int));
    if chars.len() == start {
        return None;
    }
    let mut value: u64 = 0;
    let mut i: usize = start;
    assert(digits.take(0) =~= Seq::<char>::empty());
    while i < chars.len()
        invariant
            start <= i <= chars@.len(),
            digits == chars@.skip(start as int),
            digits == unsigned_digits(text@),
            digits.len() > 0,
            forall|j: int| 0 <= j < i - start ==> is_digit(#[trigger] digits[j]),
            value == digits_value(digits.take(i - start)),
            value <= u32::MAX,
        decreases chars@.len() - i,
    {
        let c: char = chars[i];
        assert(digits[i - start] == c);
        if !('0' <= c && c <= '9') {
            assert(!is_digit(digits[i - start]));
            return None;
        }
        let next: u64 = value * 10 + (c as u32 - '0' as u32) as u64;
        proof {
            let longer = digits.take(i + 1 - start);
            assert(longer.drop_last() =~= digits.take(i - start));
            assert(longer.last() == c);
            lemma_digits_grow(digits, i + 1 - start);
        }
        if next > u32::MAX as u64 {
            return None;
        }
        value = next;
        i = i + 1;
    }
    assert(digits.take(digits.len() as int) =~= digits);
    Some(value as u32)
}

proof fn lemma_digits_grow(digits: Seq<char>, at: int)
    requires
        0 <= at <= digits.len(),
    ensures
        (forall|j: int| 0 <= j < digits.len() ==> is_digit(#[trigger] digits[j])) ==> digits_value(
            digits.take(at),
        ) <= digits_value(digits),
    decreases digits.len() - at,
{
    if at < digits.len() {
        lemma_digits_grow(digits, at + 1);
        assert(digits.take(at + 1).drop_last() =~= digits.take(at));
        assert(digits.take(at + 1).last() == digits[at]);
    } else {
        assert(digits.take(at) =~= digits);
    }
}

/// The owner that the contents of a lock file name.
pub fn parse_lock(contents: &str) -> (owner: Option<LockOwner>)
    ensures
        match owner {
            Some(found) => {
                &&& pid_in(lines_of(contents@)) == Some(found.pid)
                &&& found.token@ == token_in(lines_of(contents@))
            },
            None => pid_in(lines_of(contents@)) is None,
        },
{
    let chars: Vec<char> = chars_of(contents);
    let mut pid: Option<u32> = None;
    let mut token: String = String::new();
    let mut start: usize = 0;
    let ghost mut seen: Seq<Seq<char>> = Seq::empty();
    let ghost all = lines_of(contents@);
    assert(chars@.skip(0) =~= chars@);
    assert(seen + lines_of(chars@.skip(0)) =~= all);
    while start < chars.len()
        invariant
            start <= chars@.len(),
            chars@ == contents@,
            all == lines_of(contents@),
            seen + lines_of(chars@.skip(start as int)) == all,
            pid == pid_in(seen),
            token@ == token_in(seen),
        decreases chars@.len() - start,
    {
        let end: usize = line_end(&chars, start);
        let ghost rest = chars@.skip(start as int);
        let stop: usize = if end < chars.len() && end > start && chars[end - 1] == '\r' {
            end - 1
        } else {
            end
        };
        let line: &str = contents.substring_char(start, stop);
        let next: usize = if end < chars.len() {
            end + 1
        } else {
            end
        };
        proof {
            if end < chars@.len() {
                assert(rest.take(end - start) =~= chars@.subrange(start as int, end as int));
                assert(line@ =~= without_return(rest.take(end - start)));
                assert(rest.skip(end - start + 1) =~= chars@.skip(next as int));
            } else {
                assert(line@ =~= rest);
                assert(chars@.skip(next as int).len() == 0);
                assert(lines_of(chars@.skip(next as int)) =~= Seq::<Seq<char>>::empty());
            }
            assert(lines_of(rest) =~= seq![line@] + lines_of(chars@.skip(next as int)));
            let before = seen;
            seen = seen.push(line@);
            assert(seen.drop_last() =~= before);
            assert(seen + lines_of(chars@.skip(next as int)) =~= before + lines_of(rest));
            reveal_strlit("pid=");
            reveal_strlit("token=");
        }
        let ghost text = line@;
        if text_starts_with(line, "pid=") {
            let length: usize = line.unicode_len();
            let value: &str = line.substring_char(4, length);
            assert(value@ =~= text.skip(4));
            pid = parse_u32(value);
            assert(!starts_with(text, "token="@)) by {
                assert(text[0] == "pid="@[0]) by {
                    assert(text.take(4)[0] == text[0]);
                }
                if starts_with(text, "token="@) {
                    assert(text.take(6)[0] == text[0]);
                }
            }
        } else if text_starts_with(line, "token=") {
            let length: usize = line.unicode_len();
            let value: &str = line.substring_char(6, length);
            assert(value@ =~= text.skip(6));
            token = value.to_owned();
        }
        start = next;
    }
    assert(lines_of(chars@.skip(start as int)) =~= Seq::<Seq<char>>::empty());
    assert(seen =~= all);
    match pid {
        Some(pid) => Some(LockOwner { pid, token }),
        None => None,
    }
}

/// A file at the path of a lock.
pub struct LockFile {
    /// What tells the file from others.
    pub identity: LockFileIdentity,
    /// What it holds; none where that is not text.
    pub contents: Option<Seq<char>>,
}

/// Whether a lock is what reading a file finds. A malformed lock has some age.
pub open spec fn found_in(lock: LockRead, file: LockFile) -> bool {
    match lock {
        LockRead::Missing => false,
        LockRead::Owner { owner, identity } => {
            &&& identity == file.identity
            &&& file.contents is Some
            &&& pid_in(lines_of(file.contents->0)) == Some(owner.pid)
            &&& owner.token@ == token_in(lines_of(file.contents->0))
        },
        LockRead::Malformed { identity, .. } => {
            &&& identity == file.identity
            &&& file.contents is None || pid_in(lines_of(file.contents->0)) is None
        },
    }
}

/// What was found at the path of a lock file, from its contents; none for
/// contents that are not text.
pub fn read_lock(
    contents: Option<&str>,
    age_ms: Option<u64>,
    identity: LockFileIdentity,
) -> (lock: LockRead)
    ensures
        found_in(lock, LockFile { identity, contents: optional_view(contents) }),
        lock is Malformed ==> lock->age_ms == age_ms,
{
    match contents {
        None => LockRead::Malformed { age_ms, identity },
        Some(text) => match parse_lock(text) {
            Some(owner) => LockRead::Owner { owner, identity },
            None => LockRead::Malformed { age_ms, identity },
        },
    }
}

/// The owner of a lock, if the lock names one.
pub fn read_lock_owner(lock: LockRead) -> (owner: Option<LockOwner>)
    ensures
        match owner {
            Some(found) => lock is Owner && found == lock->owner,
            None => !(lock is Owner),
        },
{
    match lock {
        LockRead::Owner { owner, .. } => Some(owner),
        _ => None,
    }
}

/// Whether a malformed lock file is abandoned; one of unknown age is not.
pub fn malformed_lock_is_stale(age_ms: Option<u64>) -> (stale: bool)
    ensures
        stale == (age_ms is Some && age_ms->0 >= MALFORMED_STALE_AFTER_MS),
{
    match age_ms {
        Some(age) => age >= MALFORMED_STALE_AFTER_MS,
        None => false,
    }
}

/// What to do about a lock file that is in the way.
#[derive(Debug, Clone, Copy, PartialEq, Eq, Structural)]
pub enum LockRecovery {
    /// It is gone: try again.
    Gone,
    /// It is abandoned: remove this very file, then try again.
    Remove {
        /// The file.
        identity: LockFileIdentity,
    },
    /// It is held.
    Keep,
}

/// What to do about a lock file that is in the way: the lock of a dead process
/// and an old malformed one are removed, every other one is kept.
pub open spec fn recovery(lock: LockRead, owner_alive: bool) -> LockRecovery {
    match lock {
        LockRead::Missing => LockRecovery::Gone,
        LockRead::Owner { identity, .. } => if owner_alive {
            LockRecovery::Keep
        } else {
            LockRecovery::Remove { identity }
        },
        LockRead::Malformed { age_ms, identity } => if age_ms is Some && age_ms->0
            >= MALFORMED_STALE_AFTER_MS {
            LockRecovery::Remove { identity }
        } else {
            LockRecovery::Keep
        },
    }
}

/// Decide what to do about a lock file that is in the way.
pub fn remove_recoverable_lock(lock: &LockRead, owner_alive: bool) -> (decision: LockRecovery)
    ensures
        decision == recovery(*lock, owner_alive),
{
    match lock {
        LockRead::Missing => LockRecovery::Gone,
        LockRead::Owner { identity, .. } => if owner_alive {
            LockRecovery::Keep
        } else {
            LockRecovery::Remove { identity: *identity }
        },
        LockRead::Malformed { age_ms, identity } => if malformed_lock_is_stale(*age_ms) {
            LockRecovery::Remove { identity: *identity }
        } else {
            LockRecovery::Keep
        },
    }
}

/// Whether the file that is there now is the one that was found abandoned.
pub fn may_remove_lock(found: LockFileIdentity, current: Option<LockFileIdentity>) -> (may: bool)
    ensures
        may == (current == Some(found)),
{
    match current {
        Some(identity) => identity == found,
        None => false,
    }
}

/// How a lock is called in a message.
pub open spec fn lock_state(lock: LockRead) -> Seq<char> {
    match lock {
        LockRead::Missing => "missing"@,
        LockRead::Owner { .. } => "owned"@,
        LockRead::Malformed { .. } => "malformed"@,
    }
}

/// The error when a lock could not be had in time.
pub open spec fn timeout_error(lock_path: Seq<char>, lock: LockRead) -> ErrorView {
    ErrorView::Io {
        class: IoKind::TimedOut,
        message: "timed out waiting for sidecar lock "@ + lock_path + " ("@ + lock_state(lock)
            + ")"@,
    }
}

/// The error when a lock could not be had in time.
pub fn lock_timeout_error(lock_path: &str, lock: &LockRead) -> (error: SpindleError)
    ensures
        error@ == timeout_error(lock_path@, *lock),
{
    let state: &str = match lock {
        LockRead::Missing => "missing",
        LockRead::Owner { .. } => "owned",
        LockRead::Malformed { .. } => "malformed",
    };
    let mut message: String = "timed out waiting for sidecar lock ".to_owned();
    message.append(lock_path);
    message.append(" (");
    message.append(state);
    message.append(")");
    SpindleError::Io { class: IoKind::TimedOut, message }
}

/// The path of the lock file beside a target.
pub open spec fn lock_path_of(target: Seq<char>) -> Seq<char> {
    let name = match file_name_of(target) {
        Some(name) => name,
        None => "spindle-state"@,
    };
    with_name(target, name + ".lock"@)
}

/// The path of the lock file beside a target.
pub fn sidecar_lock_path(target_path: &str) -> (path: String)
    ensures
        path@ == lock_path_of(target_path@),
{
    let mut name: String = match path_file_name(target_path) {
        Some(name) => name,
        None => "spindle-state".to_owned(),
    };
    name.append(".lock");
    path_with_name(target_path, name.as_str())
}

/// The token of a lock: the process and a counter.
pub open spec fn token_of(process: u32, counter: u64) -> Seq<char> {
    decimal(process as nat) + "-"@ + decimal(counter as nat)
}

/// The token of a lock: the process and a counter.
pub fn lock_token(process: u32, counter: u64) -> (token: String)
    ensures
        token@ == token_of(process, counter),
{
    let mut token: String = decimal_text(process as u64);
    token.append("-");
    token.append(decimal_text(counter).as_str());
    token
}

proof fn lemma_decimal(number: nat)
    ensures
        decimal(number).len() > 0,
        forall|i: int| 0 <= i < decimal(number).len() ==> is_digit(#[trigger] decimal(number)[i]),
        digits_value(decimal(number)) == number,
    decreases number,
{
    let last = crate::error::digit(number % 10);
    assert(is_digit(last));
    assert(last as u32 - '0' as u32 == number % 10);
    if number < 10 {
        let text = decimal(number);
        assert(text.drop_last() =~= Seq::<char>::empty());
        assert(digits_value(text.drop_last()) == 0);
    } else {
        lemma_decimal(number / 10);
        let front = decimal(number / 10);
        let text = decimal(number);
        assert(text.drop_last() =~= front);
        assert forall|i: int| 0 <= i < text.len() implies is_digit(#[trigger] text[i]) by {
            if i < front.len() {
                assert(text[i] == front[i]);
            }
        }
    }
}

proof fn lemma_first_line(line: Seq<char>, rest: Seq<char>)
    requires
        !line.contains('\n'),
        line.len() > 0 ==> line.last() != '\r',
    ensures
        lines_of(line + seq!['\n'] + rest) == seq![line] + lines_of(rest),
{
    let text = line + seq!['\n'] + rest;
    assert forall|j: int| 0 <= j < line.len() implies text[j] != '\n' by {
        assert(line.contains(line[j]));
    }
    lemma_first_index(text, '\n', line.len() as int);
    assert(text.take(line.len() as int) =~= line);
    assert(text.skip(line.len() + 1int) =~= rest);
}

proof fn lemma_pid_line(pid: u32)
    ensures
        !("pid="@ + decimal(pid as nat)).contains('\n'),
        ("pid="@ + decimal(pid as nat)).last() != '\r',
        starts_with("pid="@ + decimal(pid as nat), "pid="@),
        !starts_with("pid="@ + decimal(pid as nat), "token="@),
        parsed_u32(("pid="@ + decimal(pid as nat)).skip(4)) == Some(pid),
{
    reveal_strlit("pid=");
    reveal_strlit("token=");
    let digits = decimal(pid as nat);
    let line = "pid="@ + digits;
    lemma_decimal(pid as nat);
    assert(is_digit(digits[0]));
    assert(is_digit(digits[digits.len() - 1]));
    assert(line.last() == digits[digits.len() - 1]);
    assert forall|j: int| 0 <= j < line.len() implies line[j] != '\n' by {
        if j >= 4 {
            assert(is_digit(digits[j - 4]));
        }
    }
    assert(line.take(4) =~= "pid="@);
    assert(line.skip(4) =~= digits);
    if starts_with(line, "token="@) {
        assert(line.take(6)[0] == line[0]);
    }
}

proof fn lemma_token_line(token: Seq<char>)
    requires
        !token.contains('\n'),
        token.len() > 0 ==> token.last() != '\r',
    ensures
        !("token="@ + token).contains('\n'),
        ("token="@ + token).last() != '\r',
        starts_with("token="@ + token, "token="@),
        !starts_with("token="@ + token, "pid="@),
        ("token="@ + token).skip(6) == token,
{
    reveal_strlit("pid=");
    reveal_strlit("token=");
    let line = "token="@ + token;
    assert forall|j: int| 0 <= j < line.len() implies line[j] != '\n' by {
        if j >= 6 {
            assert(token.contains(token[j - 6]));
        }
    }
    assert(line.last() == if token.len() > 0 {
        token.last()
    } else {
        '='
    });
    assert(line.take(6) =~= "token="@);
    assert(line.skip(6) =~= token);
    if starts_with(line, "pid="@) {
        assert(line.take(4)[0] == line[0]);
    }
}

/// What a process writes into its lock file names that process and its token to
/// whoever reads it, for a token on one line.
pub proof fn law_lock_read_gives_written(pid: u32, token: Seq<char>)
    requires
        !token.contains('\n'),
        token.len() > 0 ==> token.last() != '\r',
    ensures
        pid_in(lines_of(lock_text(pid as nat, token))) == Some(pid),
        token_in(lines_of(lock_text(pid as nat, token))) == token,
{
    let first = "pid="@ + decimal(pid as nat);
    let second = "token="@ + token;
    let empty = Seq::<char>::empty();
    lemma_pid_line(pid);
    lemma_token_line(token);
    assert(lock_text(pid as nat, token) =~= first + seq!['\n'] + (second + seq!['\n'] + empty)) by {
        reveal_strlit("token=");
        reveal_strlit("\ntoken=");
        reveal_strlit("\n");
    }
    lemma_first_line(first, second + seq!['\n'] + empty);
    lemma_first_line(second, empty);
    let lines = lines_of(lock_text(pid as nat, token));
    assert(lines =~= seq![first, second]);
    assert(lines.drop_last() =~= seq![first]);
    assert(pid_in(seq![first]) == Some(pid));
}

proof fn lemma_token(process: u32, counter: u64)
    ensures
        !token_of(process, counter).contains('\n'),
        token_of(process, counter).len() > 0,
        token_of(process, counter).last() != '\r',
{
    reveal_strlit("-");
    let front = decimal(process as nat);
    let back = decimal(counter as nat);
    let token = token_of(process, counter);
    lemma_decimal(process as nat);
    lemma_decimal(counter as nat);
    assert forall|j: int| 0 <= j < token.len() implies token[j] != '\n' by {
        if j < front.len() {
            assert(is_digit(front[j]));
        } else if j > front.len() {
            assert(is_digit(back[j - front.len() - 1]));
        }
    }
    assert(is_digit(back[back.len() - 1]));
    assert(token.last() == back[back.len() - 1]);
}

/// The lock file that a process writes names that process, and the token of its
/// lock.
pub proof fn law_lock_file_names_its_process(
    lock: LockRead,
    identity: LockFileIdentity,
    process: u32,
    counter: u64,
)
    requires
        found_in(
            lock,
            LockFile {
                identity,
                contents: Some(lock_text(process as nat, token_of(process, counter))),
            },
        ),
    ensures
        lock is Owner,
        lock->owner.pid == process,
        lock->owner.token@ == token_of(process, counter),
{
    lemma_token(process, counter);
    law_lock_read_gives_written(process, token_of(process, counter));
}

/// No two locks have the same token, so that a process that lets go of a lock never
/// takes another one for its own.
pub proof fn law_tokens_differ(process: u32, counter: u64, other_process: u32, other_counter: u64)
    ensures
        token_of(process, counter) == token_of(other_process, other_counter) <==> process
            == other_process && counter == other_counter,
{
    reveal_strlit("-");
    let token = token_of(process, counter);
    if token == token_of(other_process, other_counter) {
        lemma_token_parts(process, counter);
        lemma_token_parts(other_process, other_counter);
        lemma_decimal(process as nat);
        lemma_decimal(counter as nat);
        lemma_decimal(other_process as nat);
        lemma_decimal(other_counter as nat);
    }
}

proof fn lemma_token_parts(process: u32, counter: u64)
    ensures
        ({
            let token = token_of(process, counter);
            let at = first_index(token, '-');
            token.take(at) == decimal(process as nat) && token.skip(at + 1) == decimal(
                counter as nat,
            )
        }),
{
    reveal_strlit("-");
    let front = decimal(process as nat);
    let token = token_of(process, counter);
    lemma_decimal(process as nat);
    assert forall|j: int| 0 <= j < front.len() implies token[j] != '-' by {
        assert(is_digit(front[j]));
    }
    lemma_first_index(token, '-', front.len() as int);
    assert(token.take(front.len() as int) =~= front);
    assert(token.skip(front.len() + 1int) =~= decimal(counter as nat));
}

impl SidecarLock {
    /// The lock on a target that a process is about to take.
    pub fn acquire(target_path: &str, process: u32, counter: u64) -> (lock: Self)
        ensures
            lock.path@ == lock_path_of(target_path@),
            lock.token@ == token_of(process, counter),
    {
        SidecarLock { path: sidecar_lock_path(target_path), token: lock_token(process, counter) }
    }

    /// What the process writes into the lock file once it has created it.
    pub fn contents(&self, process: u32) -> (text: String)
        ensures
            text@ == lock_text(process as nat, self.token@),
    {
        let mut text: String = "pid=".to_owned();
        text.append(decimal_text(process as u64).as_str());
        text.append("\ntoken=");
        text.append(self.token.as_str());
        text.append("\n");
        text
    }

    /// Whether a lock file is this lock, so that letting go of the lock removes
    /// it.
    pub fn owns(&self, lock: LockRead) -> (owns: bool)
        ensures
            owns == (lock is Owner && lock->owner.token@ == self.token@),
    {
        lock_token_matches(lock, self.token.as_str())
    }
}

/// Whether a lock file carries a token.
pub fn lock_token_matches(lock: LockRead, token: &str) -> (matches: bool)
    ensures
        matches == (lock is Owner && lock->owner.token@ == token@),
{
    match read_lock_owner(lock) {
        Some(owner) => same_text(owner.token.as_str(), token),
        None => false,
    }
}

/// The lines of a text come one by one: each ends with its line feed, or with a
/// carriage return in front of it, and what is behind gives the other lines. What is
/// behind the last line feed is a line of its own.
pub proof fn law_lines_come_one_by_one(line: Seq<char>, rest: Seq<char>)
    requires
        !line.contains('\n'),
    ensures
        line.len() == 0 || line.last() != '\r' ==> lines_of(line + seq!['\n'] + rest) == seq![line]
            + lines_of(rest),
        lines_of(line + seq!['\r', '\n'] + rest) == seq![line] + lines_of(rest),
        line.len() > 0 ==> lines_of(line) == seq![line],
        lines_of(Seq::empty()).len() == 0,
{
    if line.len() == 0 || line.last() != '\r' {
        lemma_first_line(line, rest);
    }
    let text = line + seq!['\r', '\n'] + rest;
    let at = line.len() + 1int;
    assert forall|j: int| 0 <= j < at implies text[j] != '\n' by {
        if j < line.len() {
            assert(line.contains(line[j]));
        }
    }
    lemma_first_index(text, '\n', at);
    assert(text.take(at) =~= line + seq!['\r']);
    assert(without_return(text.take(at)) =~= line);
    assert(text.skip(at + 1) =~= rest);
    assert forall|j: int| 0 <= j < line.len() implies line[j] != '\n' by {
        assert(line.contains(line[j]));
    }
    lemma_first_index(line, '\n', line.len() as int);
}

/// The last line that names a process decides which one it is, and the last that gives
/// a token which one that is; other lines change nothing.
pub proof fn law_last_line_decides(lines: Seq<Seq<char>>, value: Seq<char>, other: Seq<char>)
    requires
        !starts_with(other, "pid="@),
        !starts_with(other, "token="@),
    ensures
        pid_in(lines.push("pid="@ + value)) == parsed_u32(value),
        token_in(lines.push("token="@ + value)) == value,
        pid_in(lines.push(other)) == pid_in(lines),
        token_in(lines.push(other)) == token_in(lines),
        pid_in(lines.push("token="@ + value)) == pid_in(lines),
        token_in(lines.push("pid="@ + value)) == token_in(lines),
{
    reveal_strlit("pid=");
    reveal_strlit("token=");
    let pid = "pid="@ + value;
    let token = "token="@ + value;
    assert(pid.take(4) =~= "pid="@);
    assert(pid.skip(4) =~= value);
    assert(token.take(6) =~= "token="@);
    assert(token.skip(6) =~= value);
    if starts_with(pid, "token="@) {
        assert(pid.take(6)[0] == pid[0]);
    }
    if starts_with(token, "pid="@) {
        assert(token.take(4)[0] == token[0]);
    }
    assert(lines.push(pid).drop_last() =~= lines);
    assert(lines.push(token).drop_last() =~= lines);
    assert(lines.push(other).drop_last() =~= lines);
}

/// A number is read back from its decimal text, with or without a plus in front; a text
/// with any other character is no number.
pub proof fn law_numbers_are_read_back(number: u32, text: Seq<char>, i: int)
    requires
        0 <= i < text.len(),
        !is_digit(text[i]),
        i > 0 || text[i] != '+',
    ensures
        parsed_u32(decimal(number as nat)) == Some(number),
        parsed_u32(seq!['+'] + decimal(number as nat)) == Some(number),
        parsed_u32(text) is None,
        parsed_u32(Seq::empty()) is None,
        parsed_u32(seq!['+']) is None,
{
    let digits = decimal(number as nat);
    lemma_decimal(number as nat);
    assert(is_digit(digits[0]));
    assert(unsigned_digits(digits) == digits);
    assert((seq!['+'] + digits).drop_first() =~= digits);
    assert(unsigned_digits(text) == text || (i > 0 && unsigned_digits(text)[i - 1] == text[i]));
    assert(!is_digit('+'));
    assert(unsigned_digits(seq!['+'])[0] == '+');
}

/// The lock file of a target stands beside it, under its name with `.lock` behind.
pub proof fn law_lock_file_is_beside_its_target(target: Seq<char>, name: Seq<char>)
    requires
        file_name_of(target) == Some(name),
    ensures
        parent_of(lock_path_of(target)) == parent_of(target),
        file_name_of(lock_path_of(target)) == Some(name + ".lock"@),
{
    reveal_strlit(".lock");
    law_file_name_has_no_slash(target);
    let locked = name + ".lock"@;
    assert forall|i: int| 0 <= i < locked.len() implies locked[i] != '/' by {
        if i < name.len() {
            assert(locked[i] == name[i]);
        } else {
            assert(locked[i] == ".lock"@[i - name.len()]);
        }
    }
    law_renamed_file_stays_in_its_directory(target, locked);
}

} // verus!
