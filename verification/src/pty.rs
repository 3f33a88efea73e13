//! Starting a shell and talking to it: what is decided around the system calls.

use crate::paths::components;
use crate::text::{chars_of, find, find_char, is_text, joined, owned, push_bytes, push_text, texts};
use vstd::prelude::*;
use vstd::utf8::encode_utf8;

verus! {

/// What waiting for the terminal's side and the shutdown signal gave.
#[derive(Debug, Clone, Copy, PartialEq, Eq, Structural)]
pub enum ReaderPoll {
    Data,
    Timeout,
    Shutdown,
}

/// What happened on a file descriptor that was waited for.
#[derive(Debug, Clone, Copy, PartialEq, Eq, Structural)]
pub struct PollEvents {
    pub readable: bool,
    pub writable: bool,
    pub hangup: bool,
    pub error: bool,
    /// The descriptor is not open.
    pub invalid: bool,
}

/// The outcome of waiting, of `ready` descriptors (negative where waiting failed).
/// A shutdown comes first: a descriptor whose number may be in use for something else
/// is not read from.
pub fn reader_poll(ready: i32, terminal: PollEvents, shutdown: PollEvents) -> (outcome: Option<
    ReaderPoll,
>)
    ensures
        outcome == (if ready < 0 {
            None
        } else if ready == 0 {
            Some(ReaderPoll::Timeout)
        } else if shutdown.readable || shutdown.hangup || shutdown.error || shutdown.invalid
            || terminal.invalid {
            Some(ReaderPoll::Shutdown)
        } else if terminal.readable || terminal.hangup || terminal.error {
            Some(ReaderPoll::Data)
        } else {
            Some(ReaderPoll::Timeout)
        }),
{
    if ready < 0 {
        return None;
    }
    if ready == 0 {
        return Some(ReaderPoll::Timeout);
    }
    if shutdown.readable || shutdown.hangup || shutdown.error || shutdown.invalid {
        return Some(ReaderPoll::Shutdown);
    }
    if terminal.invalid {
        return Some(ReaderPoll::Shutdown);
    }
    if terminal.readable || terminal.hangup || terminal.error {
        return Some(ReaderPoll::Data);
    }
    Some(ReaderPoll::Timeout)
}

/// Whether there is something to read. Nothing where waiting failed or the descriptor
/// is not open.
pub fn is_readable(ready: i32, events: PollEvents) -> (v: Option<bool>)
    ensures
        v == (if ready < 0 || (ready > 0 && events.invalid) {
            None
        } else if ready == 0 {
            Some(false)
        } else {
            Some(events.readable || events.hangup || events.error)
        }),
{
    if ready < 0 {
        None
    } else if ready == 0 {
        Some(false)
    } else if events.invalid {
        None
    } else {
        Some(events.readable || events.hangup || events.error)
    }
}

/// Whether something can be written. Nothing where waiting failed.
pub fn is_writable(ready: i32, events: PollEvents) -> (v: Option<bool>)
    ensures
        v == (if ready < 0 {
            None
        } else {
            Some(ready > 0 && (events.writable || events.hangup || events.error))
        }),
{
    if ready < 0 {
        None
    } else if ready == 0 {
        Some(false)
    } else {
        Some(events.writable || events.hangup || events.error)
    }
}

/// What a write gave: the bytes written, none where the other side is full. Nothing
/// where it failed.
pub fn write_outcome(n: isize, would_block: bool) -> (written: Option<usize>)
    ensures
        written == (if n >= 0 {
            Some(n as usize)
        } else if would_block {
            Some(0usize)
        } else {
            None
        }),
{
    if n >= 0 {
        Some(n as usize)
    } else if would_block {
        Some(0)
    } else {
        None
    }
}

/// What a read gave.
#[derive(Debug, Clone, Copy, PartialEq, Eq, Structural)]
pub enum ReadOutcome {
    Bytes(usize),
    /// Nothing yet.
    Empty,
    /// The other side is closed.
    End,
    Failed,
}

pub fn read_outcome(n: isize, would_block: bool) -> (outcome: ReadOutcome)
    ensures
        outcome == (if n > 0 {
            ReadOutcome::Bytes(n as usize)
        } else if n == 0 {
            ReadOutcome::End
        } else if would_block {
            ReadOutcome::Empty
        } else {
            ReadOutcome::Failed
        }),
{
    if n > 0 {
        ReadOutcome::Bytes(n as usize)
    } else if n == 0 {
        ReadOutcome::End
    } else if would_block {
        ReadOutcome::Empty
    } else {
        ReadOutcome::Failed
    }
}

/// No more than this is put together of what a program sends before it is handed on.
pub const COALESCE_CAP: usize = 1_048_576;

/// What the reader of a terminal does next.
#[derive(Debug, Clone, Copy, PartialEq, Eq, Structural)]
pub enum ReaderStep {
    /// It waits for data.
    Wait,
    /// It reads, as much as there is.
    Read,
    /// It hands on what it has read, and waits.
    Deliver,
    /// It hands on what it has read, and tells that the shell is gone.
    Finish(i32),
    /// It stops.
    Stop,
}

/// What a reader does next, once it has waited.
pub open spec fn after_waiting(poll: Option<ReaderPoll>) -> ReaderStep {
    match poll {
        Some(ReaderPoll::Shutdown) => ReaderStep::Stop,
        Some(ReaderPoll::Timeout) => ReaderStep::Wait,
        Some(ReaderPoll::Data) => ReaderStep::Read,
        None => ReaderStep::Finish(-1i32),
    }
}

/// What a reader does next, once it has read `n` bytes and holds `held`.
pub open spec fn after_reading(held: int, n: isize, would_block: bool, interrupted: bool) -> ReaderStep {
    if n > 0 {
        if held >= COALESCE_CAP {
            ReaderStep::Deliver
        } else {
            ReaderStep::Read
        }
    } else if n == 0 {
        ReaderStep::Finish(0)
    } else if would_block {
        ReaderStep::Deliver
    } else if interrupted {
        ReaderStep::Read
    } else {
        ReaderStep::Finish(-1i32)
    }
}

/// The reader of a terminal: everything that can be read at once is put together.
#[derive(Debug)]
pub struct Reader {
    pub held: Vec<u8>,
}

impl Reader {
    pub fn new() -> (reader: Self)
        ensures
            reader.held@.len() == 0,
    {
        Reader { held: Vec::new() }
    }

    /// Takes in what waiting gave.
    pub fn note_wait(&self, poll: Option<ReaderPoll>) -> (step: ReaderStep)
        ensures
            step == after_waiting(poll),
    {
        match poll {
            Some(ReaderPoll::Shutdown) => ReaderStep::Stop,
            Some(ReaderPoll::Timeout) => ReaderStep::Wait,
            Some(ReaderPoll::Data) => ReaderStep::Read,
            None => ReaderStep::Finish(-1),
        }
    }

    /// Takes in what a read gave: `n`, and the bytes where there are any.
    pub fn note_read(&mut self, n: isize, bytes: &[u8], would_block: bool, interrupted: bool) -> (step:
        ReaderStep)
        requires
            n > 0 ==> bytes@.len() == n,
        ensures
            final(self).held@ == (if n > 0 {
                old(self).held@ + bytes@
            } else {
                old(self).held@
            }),
            step == after_reading(final(self).held@.len() as int, n, would_block, interrupted),
    {
        if n > 0 {
            push_bytes(&mut self.held, bytes);
            if self.held.len() >= COALESCE_CAP {
                ReaderStep::Deliver
            } else {
                ReaderStep::Read
            }
        } else if n == 0 {
            ReaderStep::Finish(0)
        } else if would_block {
            ReaderStep::Deliver
        } else if interrupted {
            ReaderStep::Read
        } else {
            ReaderStep::Finish(-1)
        }
    }

    /// Hands on what was read.
    pub fn take(&mut self) -> (bytes: Vec<u8>)
        ensures
            bytes@ == old(self).held@,
            final(self).held@.len() == 0,
    {
        let mut bytes: Vec<u8> = Vec::new();
        std::mem::swap(&mut bytes, &mut self.held);
        bytes
    }
}

/// How a process ended.
#[derive(Debug, Clone, Copy, PartialEq, Eq, Structural)]
pub enum WaitStatus {
    Exited(i32),
    Signaled(i32),
    Other,
}

impl WaitStatus {
    /// The exit code: that of the process, or the signal that ended it, negative.
    pub open spec fn code(self) -> int {
        match self {
            WaitStatus::Exited(code) => code as int,
            WaitStatus::Signaled(signal) => -(signal as int),
            WaitStatus::Other => -1,
        }
    }

    fn exit_code(self) -> (code: i32)
        requires
            self matches WaitStatus::Signaled(signal) ==> signal > i32::MIN,
        ensures
            code == self.code(),
    {
        match self {
            WaitStatus::Exited(code) => code,
            WaitStatus::Signaled(signal) => -signal,
            WaitStatus::Other => -1,
        }
    }
}

/// What is known of the shell's end. Once its exit code is known it stays so.
#[derive(Debug, Clone, Copy, PartialEq, Eq, Structural)]
pub struct ChildState {
    pub exit_code_cached: Option<i32>,
}

impl ChildState {
    pub fn new() -> (state: Self)
        ensures
            state.exit_code_cached is None,
    {
        ChildState { exit_code_cached: None }
    }

    /// Takes in what asking for the shell's state gave: nothing new (zero), its end
    /// (positive), or an error, which means that it is gone. Whether it is alive.
    pub fn note_poll(&mut self, result: i32, status: WaitStatus) -> (alive: bool)
        requires
            status matches WaitStatus::Signaled(signal) ==> signal > i32::MIN,
        ensures
            alive == (old(self).exit_code_cached is None && result == 0),
            final(self).exit_code_cached == (if old(self).exit_code_cached is Some || result == 0 {
                old(self).exit_code_cached
            } else if result > 0 {
                Some(status.code() as i32)
            } else {
                Some(0i32)
            }),
    {
        if self.exit_code_cached.is_some() {
            return false;
        }
        if result == 0 {
            return true;
        }
        self.exit_code_cached = Some(
            if result > 0 {
                status.exit_code()
            } else {
                0
            },
        );
        false
    }

    /// Takes in what waiting for the shell's end gave. Nothing where it failed; that
    /// the end was taken note of elsewhere (`reaped`) counts as a good one.
    pub fn note_wait(&mut self, result: i32, reaped: bool, status: WaitStatus) -> (code: Option<i32>)
        requires
            status matches WaitStatus::Signaled(signal) ==> signal > i32::MIN,
        ensures
            code == (if old(self).exit_code_cached is Some {
                old(self).exit_code_cached
            } else if result >= 0 {
                Some(status.code() as i32)
            } else if reaped {
                Some(0i32)
            } else {
                None
            }),
            final(self).exit_code_cached == code,
    {
        if self.exit_code_cached.is_none() {
            if result >= 0 {
                self.exit_code_cached = Some(status.exit_code());
            } else if reaped {
                self.exit_code_cached = Some(0);
            }
        }
        self.exit_code_cached
    }

    /// The shell is being ended, if it has not yet.
    pub fn note_terminated(&mut self)
        ensures
            final(self).exit_code_cached == (match old(self).exit_code_cached {
                Some(code) => Some(code),
                None => Some(-15i32),
            }),
    {
        if self.exit_code_cached.is_none() {
            self.exit_code_cached = Some(-15);
        }
    }
}

/// A shell that may be started, and whether it can be.
#[derive(Debug)]
pub struct ShellChoice {
    pub path: String,
    pub executable: bool,
}

pub open spec fn usable(choice: Option<ShellChoice>) -> Option<Seq<char>> {
    match choice {
        Some(c) => if c.executable {
            Some(c.path@)
        } else {
            None
        },
        None => None,
    }
}

pub open spec fn first_some(a: Option<Seq<char>>, b: Seq<char>) -> Seq<char> {
    match a {
        Some(v) => v,
        None => b,
    }
}

/// The shell to start: the one that is set, the preferred one where it is installed,
/// the user's login shell from the environment or the user database, then bash, then
/// whatever `sh` is.
pub fn choose_shell(
    configured: Option<ShellChoice>,
    preferred: Option<ShellChoice>,
    environment: Option<ShellChoice>,
    database: Option<ShellChoice>,
    bash: Option<ShellChoice>,
) -> (shell: String)
    ensures
        shell@ == first_some(
            usable(configured),
            first_some(
                usable(preferred),
                first_some(
                    usable(environment),
                    first_some(usable(database), first_some(usable(bash), "sh"@)),
                ),
            ),
        ),
{
    if let Some(choice) = configured {
        if choice.executable {
            return choice.path;
        }
    }
    if let Some(choice) = preferred {
        if choice.executable {
            return choice.path;
        }
    }
    if let Some(choice) = environment {
        if choice.executable {
            return choice.path;
        }
    }
    if let Some(choice) = database {
        if choice.executable {
            return choice.path;
        }
    }
    if let Some(choice) = bash {
        if choice.executable {
            return choice.path;
        }
    }
    owned("sh")
}

/// The name of a shell: the end of its path.
pub open spec fn shell_name_of(path: Seq<char>) -> Seq<char> {
    let parts = components(path);
    if parts.len() > 0 && parts.last() != ".."@ && parts.last() != "."@ {
        parts.last()
    } else {
        "sh"@
    }
}

/// The arguments that a shell is started with: its name as a login shell's; for bash
/// that it is one; for the preferred shell the session.
pub open spec fn arguments_of(path: Seq<char>, session: Option<Seq<char>>) -> Seq<Seq<char>> {
    let name = shell_name_of(path);
    let login = seq!["-"@ + name];
    if name == "bash"@ {
        login.push("-l"@)
    } else if name == "rsh"@ && session is Some && find(session->0, '\0', 0) >= session->0.len() {
        login.push("--session"@).push(session->0)
    } else {
        login
    }
}

/// Why a shell cannot be started.
#[derive(Debug, Clone, Copy, PartialEq, Eq, Structural)]
pub enum ShellError {
    ShellPathHoldsNul,
    WorkingDirectoryHoldsNul,
}

pub open spec fn holds_nul(s: Seq<char>) -> bool {
    find(s, '\0', 0) < s.len()
}

fn has_nul(s: &str) -> (v: bool)
    ensures
        v == holds_nul(s@),
{
    let chars = chars_of(s);
    find_char(chars.as_slice(), '\0', 0) < chars.len()
}

fn shell_name(path: &str) -> (name: String)
    ensures
        name@ == shell_name_of(path@),
{
    crate::paths::last_name(path, "sh")
}

pub open spec fn opt_str(s: Option<&str>) -> Option<Seq<char>> {
    match s {
        Some(s) => Some(s@),
        None => None,
    }
}

/// The arguments to start a shell with.
pub fn shell_arguments(shell_path: &str, session_id: Option<&str>, cwd: Option<&str>) -> (result: Result<
    Vec<String>,
    ShellError,
>)
    ensures
        result is Err <==> holds_nul(shell_path@) || (cwd is Some && holds_nul(cwd->0@)),
        result matches Err(e) ==> e == (if holds_nul(shell_path@) {
            ShellError::ShellPathHoldsNul
        } else {
            ShellError::WorkingDirectoryHoldsNul
        }),
        result matches Ok(arguments) ==> texts(arguments@) == arguments_of(
            shell_path@,
            opt_str(session_id),
        ),
{
    if has_nul(shell_path) {
        return Err(ShellError::ShellPathHoldsNul);
    }
    if let Some(dir) = cwd {
        if has_nul(dir) {
            return Err(ShellError::WorkingDirectoryHoldsNul);
        }
    }
    let name = shell_name(shell_path);
    let name_chars = chars_of(name.as_str());
    let mut arguments: Vec<String> = Vec::new();
    arguments.push(joined("-", name_chars.as_slice()));
    if is_text(name_chars.as_slice(), "bash") {
        arguments.push(owned("-l"));
    } else if is_text(name_chars.as_slice(), "rsh") {
        if let Some(session) = session_id {
            if !has_nul(session) {
                arguments.push(owned("--session"));
                arguments.push(owned(session));
            }
        }
    }
    proof {
        assert(texts(arguments@) =~= arguments_of(shell_path@, opt_str(session_id)));
    }
    Ok(arguments)
}

/// The name of an environment entry: what stands before the first `=`.
pub open spec fn entry_key(entry: Seq<u8>) -> Seq<u8> {
    entry.subrange(0, equals_at(entry, 0))
}

/// The first `=` at or after a position, or the length.
pub open spec fn equals_at(entry: Seq<u8>, i: int) -> int
    decreases entry.len() - i,
{
    if i >= entry.len() {
        entry.len() as int
    } else if entry[i] == 61 {
        i
    } else {
        equals_at(entry, i + 1)
    }
}

/// The entries that the terminal sets itself.
pub open spec fn is_overridden(key: Seq<u8>) -> bool {
    key == encode_utf8("TERM"@) || key == encode_utf8("COLORTERM"@) || key == encode_utf8(
        "TERM_PROGRAM"@,
    ) || key == encode_utf8("TERM_PROGRAM_VERSION"@) || key == encode_utf8("VTE_VERSION"@)
}

/// The entries but for those that the terminal sets.
pub open spec fn kept_entries(entries: Seq<Seq<u8>>) -> Seq<Seq<u8>>
    decreases entries.len(),
{
    if entries.len() == 0 {
        entries
    } else {
        let before = kept_entries(entries.drop_last());
        if is_overridden(entry_key(entries.last())) {
            before
        } else {
            before.push(entries.last())
        }
    }
}

/// Whether the pager's options are set.
pub open spec fn has_less(entries: Seq<Seq<u8>>) -> bool {
    exists|i: int|
        0 <= i < entries.len() && entry_key(#[trigger] entries[i]) == encode_utf8("LESS"@)
}

/// The shell's environment: that of the terminal, with what it says of itself, and
/// options for the pager where there are none, so that it uses the alternate screen.
pub open spec fn shell_environment_of(entries: Seq<Seq<u8>>, version: Seq<char>) -> Seq<Seq<u8>> {
    let set = kept_entries(entries).push(encode_utf8("TERM=xterm-256color"@)).push(
        encode_utf8("COLORTERM=truecolor"@),
    ).push(encode_utf8("TERM_PROGRAM=jterm3"@)).push(
        encode_utf8("TERM_PROGRAM_VERSION="@) + encode_utf8(version),
    ).push(encode_utf8("VTE_VERSION=7802"@));
    if has_less(entries) {
        set
    } else {
        set.push(encode_utf8("LESS=FR"@))
    }
}

/// The bytes of some entries.
pub open spec fn entry_bytes(entries: Seq<Vec<u8>>) -> Seq<Seq<u8>> {
    Seq::new(entries.len(), |i: int| entries[i]@)
}

/// Whether the name of an entry is the given one.
fn has_key(entry: &Vec<u8>, key: &str) -> (v: bool)
    ensures
        v == (entry_key(entry@) == encode_utf8(key@)),
{
    let bytes: &[u8] = key.as_bytes();
    let mut end: usize = 0;
    while end < entry.len() && entry[end] != 61
        invariant
            end <= entry@.len(),
            equals_at(entry@, end as int) == equals_at(entry@, 0),
        decreases entry@.len() - end,
    {
        end = end + 1;
    }
    if end != bytes.len() {
        return false;
    }
    let mut i: usize = 0;
    while i < end
        invariant
            i <= end == bytes@.len(),
            end <= entry@.len(),
            bytes@ == encode_utf8(key@),
            end == equals_at(entry@, 0),
            forall|k: int| 0 <= k < i ==> entry@[k] == #[trigger] bytes@[k],
        decreases end - i,
    {
        if entry[i] != bytes[i] {
            proof {
                assert(entry_key(entry@)[i as int] == entry@[i as int]);
            }
            return false;
        }
        i = i + 1;
    }
    proof {
        assert(entry_key(entry@) =~= bytes@);
    }
    true
}

fn is_own_entry(entry: &Vec<u8>) -> (v: bool)
    ensures
        v == is_overridden(entry_key(entry@)),
{
    has_key(entry, "TERM") || has_key(entry, "COLORTERM") || has_key(entry, "TERM_PROGRAM")
        || has_key(entry, "TERM_PROGRAM_VERSION") || has_key(entry, "VTE_VERSION")
}

fn add_entry(entries: &mut Vec<Vec<u8>>, text: &str)
    ensures
        entry_bytes(final(entries)@) == entry_bytes(old(entries)@).push(encode_utf8(text@)),
{
    let mut bytes: Vec<u8> = Vec::new();
    push_text(&mut bytes, text);
    proof {
        assert(bytes@ =~= encode_utf8(text@));
    }
    entries.push(bytes);
    proof {
        assert(entry_bytes(entries@) =~= entry_bytes(old(entries)@).push(encode_utf8(text@)));
    }
}

/// The environment to start a shell with.
pub fn shell_environment(current: &Vec<Vec<u8>>, version: &str) -> (environment: Vec<Vec<u8>>)
    ensures
        entry_bytes(environment@) == shell_environment_of(entry_bytes(current@), version@),
{
    let ghost all = entry_bytes(current@);
    let mut environment: Vec<Vec<u8>> = Vec::new();
    let mut less = false;
    let mut i: usize = 0;
    proof {
        assert(all.subrange(0, 0) =~= Seq::empty());
        assert(entry_bytes(environment@) =~= kept_entries(all.subrange(0, 0)));
    }
    while i < current.len()
        invariant
            i <= current@.len(),
            all == entry_bytes(current@),
            less == has_less(all.subrange(0, i as int)),
            entry_bytes(environment@) == kept_entries(all.subrange(0, i as int)),
        decreases current@.len() - i,
    {
        let ghost next = all.subrange(0, i + 1);
        proof {
            assert(next.drop_last() =~= all.subrange(0, i as int));
            assert(next.last() == current@[i as int]@);
        }
        let sets_less = has_key(&current[i], "LESS");
        proof {
            let now = all.subrange(0, i as int);
            if less {
                let k = choose|k: int|
                    0 <= k < now.len() && entry_key(#[trigger] now[k]) == encode_utf8("LESS"@);
                assert(next[k] == now[k]);
            }
            if sets_less {
                assert(next[i as int] == current@[i as int]@);
            }
            if has_less(next) && !sets_less {
                let k = choose|k: int|
                    0 <= k < next.len() && entry_key(#[trigger] next[k]) == encode_utf8("LESS"@);
                assert(now[k] == next[k]);
            }
        }
        if sets_less {
            less = true;
        }
        if !is_own_entry(&current[i]) {
            let ghost before = entry_bytes(environment@);
            let entry = crate::text::copy_bytes(current[i].as_slice());
            environment.push(entry);
            proof {
                assert(entry_bytes(environment@) =~= before.push(entry@));
            }
        }
        i = i + 1;
    }
    proof {
        assert(all.subrange(0, i as int) =~= all);
    }
    add_entry(&mut environment, "TERM=xterm-256color");
    add_entry(&mut environment, "COLORTERM=truecolor");
    add_entry(&mut environment, "TERM_PROGRAM=jterm3");
    let mut bytes: Vec<u8> = Vec::new();
    push_text(&mut bytes, "TERM_PROGRAM_VERSION=");
    push_text(&mut bytes, version);
    let ghost before = entry_bytes(environment@);
    proof {
        assert(bytes@ =~= encode_utf8("TERM_PROGRAM_VERSION="@) + encode_utf8(version@));
    }
    environment.push(bytes);
    proof {
        assert(entry_bytes(environment@) =~= before.push(bytes@));
    }
    add_entry(&mut environment, "VTE_VERSION=7802");
    if !less {
        add_entry(&mut environment, "LESS=FR");
    }
    environment
}

/// The rows or columns that the system is told: the low sixteen bits.
pub fn window_extent(n: usize) -> (v: u16)
    ensures
        v == n % 65536,
{
    (n % 65536) as u16
}

/// What a reader does: it goes on reading while bytes come, hands them out when there are
/// many or no more for now, and is done at the end with zero and after an error with minus
/// one.
pub proof fn a_reader_hands_out_what_it_read(held: int, n: isize, waits: bool, interrupted: bool)
    ensures
        n > 0 && held < COALESCE_CAP ==> after_reading(held, n, waits, interrupted)
            == ReaderStep::Read,
        n > 0 && held >= COALESCE_CAP ==> after_reading(held, n, waits, interrupted)
            == ReaderStep::Deliver,
        n == 0 ==> after_reading(held, n, waits, interrupted) == ReaderStep::Finish(0),
        n < 0 && waits ==> after_reading(held, n, waits, interrupted) == ReaderStep::Deliver,
        n < 0 && !waits && interrupted ==> after_reading(held, n, waits, interrupted)
            == ReaderStep::Read,
        n < 0 && !waits && !interrupted ==> after_reading(held, n, waits, interrupted)
            == ReaderStep::Finish(-1i32),
{
}

/// A program that ended by itself gives its own code, and one that a signal ended the
/// signal's number with a minus.
pub proof fn exit_codes_tell_how_it_ended(code: i32, signal: i32)
    ensures
        WaitStatus::Exited(code).code() == code,
        WaitStatus::Signaled(signal).code() == -signal,
{
}

proof fn lemma_kept(entries: Seq<Seq<u8>>)
    ensures
        kept_entries(entries) == entries.filter(|e: Seq<u8>| !is_overridden(entry_key(e))),
    decreases entries.len(),
{
    reveal(Seq::filter);
    if entries.len() > 0 {
        lemma_kept(entries.drop_last());
    }
}

/// A shell's environment is the terminal's, in its order, but for what the terminal says of
/// itself: that comes behind it, each once. Options for the pager come last, where there are
/// none.
pub proof fn the_environment_is_handed_on(entries: Seq<Seq<u8>>, version: Seq<char>)
    ensures
        ({
            let kept = entries.filter(|e: Seq<u8>| !is_overridden(entry_key(e)));
            let set = seq![
                encode_utf8("TERM=xterm-256color"@),
                encode_utf8("COLORTERM=truecolor"@),
                encode_utf8("TERM_PROGRAM=jterm3"@),
                encode_utf8("TERM_PROGRAM_VERSION="@) + encode_utf8(version),
                encode_utf8("VTE_VERSION=7802"@),
            ];
            &&& has_less(entries) ==> shell_environment_of(entries, version) == kept + set
            &&& !has_less(entries) ==> shell_environment_of(entries, version) == kept + set + seq![
                encode_utf8("LESS=FR"@),
            ]
        }),
{
    lemma_kept(entries);
    let kept = entries.filter(|e: Seq<u8>| !is_overridden(entry_key(e)));
    let set = seq![
        encode_utf8("TERM=xterm-256color"@),
        encode_utf8("COLORTERM=truecolor"@),
        encode_utf8("TERM_PROGRAM=jterm3"@),
        encode_utf8("TERM_PROGRAM_VERSION="@) + encode_utf8(version),
        encode_utf8("VTE_VERSION=7802"@),
    ];
    if has_less(entries) {
        assert(shell_environment_of(entries, version) =~= kept + set);
    } else {
        assert(shell_environment_of(entries, version) =~= kept + set + seq![
            encode_utf8("LESS=FR"@),
        ]);
    }
}

/// A shell is started under its name with a dash before it; bash is told besides that it is
/// a login shell.
pub proof fn shells_are_started_as_login_shells(path: Seq<char>, session: Option<Seq<char>>)
    ensures
        arguments_of(path, session).len() > 0,
        arguments_of(path, session)[0] == seq!['-'] + shell_name_of(path),
        shell_name_of(path) == "bash"@ ==> arguments_of(path, session) == seq![
            seq!['-'] + shell_name_of(path),
            seq!['-', 'l'],
        ],
        session is None && shell_name_of(path) != "bash"@ ==> arguments_of(path, session).len()
            == 1,
{
    reveal_strlit("-");
    reveal_strlit("-l");
    assert("-"@ =~= seq!['-']);
    assert("-l"@ =~= seq!['-', 'l']);
    if shell_name_of(path) == "bash"@ {
        assert(arguments_of(path, session) =~= seq![
            seq!['-'] + shell_name_of(path),
            seq!['-', 'l'],
        ]);
    }
}

/// A shell that can be run comes before those that are thought of later, and one that cannot
/// is passed over.
pub proof fn a_usable_shell_comes_first(choice: Option<ShellChoice>, rest: Seq<char>)
    ensures
        choice matches Some(c) && c.executable ==> first_some(usable(choice), rest)
            == choice->0.path@,
        choice is None || !choice->0.executable ==> first_some(usable(choice), rest) == rest,
{
}

} // verus!
