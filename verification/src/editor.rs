//! `nkedit`, the line editor: its buffer, its commands and what it prints.
use vstd::prelude::*;
use crate::text::{trim, trimmed};

verus! {

/// Capacity of the edit buffer.
pub const BUFFER_CAP: usize = 32 * 1024;
/// Longest input line (one cell stays free).
pub const LINE_CAP: usize = 512;
/// Longest path (with its NUL).
pub const PATH_CAP: usize = 256;

/// The editor's commands, by the first byte of a trimmed input line.
#[derive(Clone, Copy, PartialEq, Eq, Structural)]
pub enum EditCommand {
    Append,
    Clear,
    Help,
    Print,
    Quit,
    ForceQuit,
    Write,
    Nothing,
}

/// The command an input line gives: `a`, `c`, `h` or `?`, `p`, `q`, `Q`,
/// `w`; any other first byte asks for help, an empty line does nothing.
pub open spec fn command_spec(line: Seq<u8>) -> EditCommand {
    let t = trimmed(line, true);
    if t.len() == 0 { EditCommand::Nothing }
    else if t[0] == 97 { EditCommand::Append }
    else if t[0] == 99 { EditCommand::Clear }
    else if t[0] == 112 { EditCommand::Print }
    else if t[0] == 113 { EditCommand::Quit }
    else if t[0] == 81 { EditCommand::ForceQuit }
    else if t[0] == 119 { EditCommand::Write }
    else { EditCommand::Help }
}

/// The command `line` gives (see `command_spec`).
pub fn command(line: &[u8]) -> (r: EditCommand)
    ensures r == command_spec(line@),
{
    let t = trim(line, true);
    if t.len() == 0 {
        return EditCommand::Nothing;
    }
    let c = t[0];
    if c == 97 { EditCommand::Append }
    else if c == 99 { EditCommand::Clear }
    else if c == 112 { EditCommand::Print }
    else if c == 113 { EditCommand::Quit }
    else if c == 81 { EditCommand::ForceQuit }
    else if c == 119 { EditCommand::Write }
    else { EditCommand::Help }
}

/// Whether an input line ends append mode: a `.` alone (blanks around it
/// allowed).
pub fn ends_append(line: &[u8]) -> (r: bool)
    ensures r == (trimmed(line@, true) == seq![46u8]),
{
    let t = trim(line, true);
    let dot: [u8; 1] = [46];
    proof { assert(dot@ =~= seq![46u8]); }
    crate::linux_abi::bytes_eq(&t, &dot)
}

/// The path the editor keeps: the argument with a NUL, when it is not
/// empty and shorter than `PATH_CAP`.
pub fn copy_path(path: &[u8]) -> (r: Option<Vec<u8>>)
    ensures
        r is Some <==> 0 < path@.len() < PATH_CAP,
        r matches Some(p) ==> p@ == path@.push(0u8),
{
    if path.len() == 0 || path.len() >= PATH_CAP {
        return None;
    }
    let mut p = crate::userland::slice_copy(path, 0, path.len());
    p.push(0);
    proof { assert(p@ =~= path@.push(0u8)); }
    Some(p)
}

/// The path as shown: without its NUL.
pub fn display_path(path: &[u8]) -> (r: Vec<u8>)
    ensures r@ == if path@.len() > 0 && path@.last() == 0 { path@.drop_last() } else { path@ },
{
    if path.len() > 0 && path[path.len() - 1] == 0 {
        let r = crate::userland::slice_copy(path, 0, path.len() - 1);
        proof { assert(r@ =~= path@.drop_last()); }
        r
    } else {
        let r = crate::userland::slice_copy(path, 0, path.len());
        proof { assert(r@ =~= path@); }
        r
    }
}

/// What a key typed at the prompt does to the input line: Enter or Return
/// ends it, other bytes are kept while there is room.
pub fn read_line_key(line: &mut Vec<u8>, key: u8) -> (done: bool)
    requires old(line)@.len() < LINE_CAP,
    ensures
        done == (key == 10 || key == 13),
        final(line)@ == if done || old(line)@.len() >= LINE_CAP - 1 { old(line)@ } else { old(line)@.push(key) },
        final(line)@.len() < LINE_CAP,
{
    if key == 10 || key == 13 {
        return true;
    }
    if line.len() < LINE_CAP - 1 {
        line.push(key);
    }
    false
}

/// The edit buffer.
pub struct Editor {
    pub path: Vec<u8>,
    pub buffer: Vec<u8>,
    pub dirty: bool,
}

/// `----- buffer -----\n`, `(empty)\n`, `------------------\n`.
pub open spec fn header() -> Seq<u8> {
    seq![45u8, 45, 45, 45, 45, 32, 98, 117, 102, 102, 101, 114, 32, 45, 45, 45, 45, 45, 10]
}

pub open spec fn empty_note() -> Seq<u8> {
    seq![40u8, 101, 109, 112, 116, 121, 41, 10]
}

pub open spec fn footer() -> Seq<u8> {
    seq![45u8, 45, 45, 45, 45, 45, 45, 45, 45, 45, 45, 45, 45, 45, 45, 45, 45, 45, 10]
}

/// What `p` prints of `buffer`: between the rules, `(empty)` or the text
/// ending in a line end.
pub open spec fn print_spec(buffer: Seq<u8>) -> Seq<u8> {
    header() + (if buffer.len() == 0 { empty_note() }
        else if buffer.last() != 10 { buffer.push(10u8) }
        else { buffer }) + footer()
}

impl Editor {
    /// The editor's invariant: the buffer fits.
    pub open spec fn wf(&self) -> bool {
        self.buffer@.len() <= BUFFER_CAP
    }

    /// An empty, clean buffer for `path`.
    pub fn new(path: Vec<u8>) -> (r: Editor)
        ensures r.wf(), r.path@ == path@, r.buffer@.len() == 0, !r.dirty,
    {
        Editor { path, buffer: Vec::new(), dirty: false }
    }

    /// Room left in the buffer.
    pub fn room(&self) -> (r: usize)
        requires self.wf(),
        ensures r == BUFFER_CAP - self.buffer@.len(),
    {
        BUFFER_CAP - self.buffer.len()
    }

    /// Takes bytes read from the file (as many as fit).
    pub fn load(&mut self, bytes: &[u8])
        requires old(self).wf(),
        ensures
            final(self).wf(),
            final(self).buffer@ == old(self).buffer@ + bytes@.take(
                if bytes@.len() <= BUFFER_CAP - old(self).buffer@.len() { bytes@.len() as int }
                else { BUFFER_CAP - old(self).buffer@.len() }),
            final(self).dirty == old(self).dirty,
            final(self).path == old(self).path,
    {
        let count: usize = if bytes.len() <= BUFFER_CAP - self.buffer.len() { bytes.len() } else { BUFFER_CAP - self.buffer.len() };
        let ghost start = self.buffer@;
        let mut i: usize = 0;
        while i < count
            invariant
                i <= count, count <= bytes@.len(), start.len() + count <= BUFFER_CAP,
                self.buffer@ == start + bytes@.take(i as int),
                self.dirty == old(self).dirty, self.path == old(self).path,
            decreases count - i,
        {
            self.buffer.push(bytes[i]);
            i += 1;
            proof { assert(self.buffer@ =~= start + bytes@.take(i as int)); }
        }
    }

    /// Appends `line` and a line end; refused (the buffer is full) when
    /// that does not fit.
    pub fn append_line(&mut self, line: &[u8]) -> (r: bool)
        requires old(self).wf(),
        ensures
            final(self).wf(),
            r == (old(self).buffer@.len() + line@.len() + 1 <= BUFFER_CAP),
            r ==> final(self).buffer@ == old(self).buffer@ + line@.push(10u8) && final(self).dirty,
            !r ==> *final(self) == *old(self),
            final(self).path == old(self).path,
    {
        if line.len() > BUFFER_CAP || self.buffer.len() + line.len() + 1 > BUFFER_CAP {
            return false;
        }
        let ghost start = self.buffer@;
        let mut i: usize = 0;
        while i < line.len()
            invariant
                i <= line@.len(), start.len() + line@.len() + 1 <= BUFFER_CAP,
                self.buffer@ == start + line@.take(i as int), self.path == old(self).path,
            decreases line@.len() - i,
        {
            self.buffer.push(line[i]);
            i += 1;
            proof { assert(self.buffer@ =~= start + line@.take(i as int)); }
        }
        self.buffer.push(10);
        proof { assert(self.buffer@ =~= start + line@.push(10u8)); }
        self.dirty = true;
        true
    }

    /// Empties the buffer (a change to save).
    pub fn clear(&mut self)
        ensures final(self).wf(), final(self).buffer@.len() == 0, final(self).dirty, final(self).path == old(self).path,
    {
        self.buffer = Vec::new();
        self.dirty = true;
    }

    /// The buffer was written to its file.
    pub fn saved(&mut self)
        ensures *final(self) == (Editor { dirty: false, ..*old(self) }),
    {
        self.dirty = false;
    }

    /// Whether `q` may leave: only without unsaved changes.
    pub fn may_quit(&self) -> (r: bool)
        ensures r == !self.dirty,
    {
        !self.dirty
    }

    /// What `p` prints (see `print_spec`).
    pub fn print(&self) -> (r: Vec<u8>)
        ensures r@ == print_spec(self.buffer@),
    {
        let mut out: Vec<u8> = vec![45, 45, 45, 45, 45, 32, 98, 117, 102, 102, 101, 114, 32, 45, 45, 45, 45, 45, 10];
        proof { assert(out@ =~= header()); }
        let ghost h = out@;
        if self.buffer.len() == 0 {
            let note: [u8; 8] = [40, 101, 109, 112, 116, 121, 41, 10];
            proof { assert(note@ =~= empty_note()); }
            let mut i: usize = 0;
            while i < 8
                invariant i <= 8, note@ == empty_note(), out@ == h + note@.take(i as int),
                decreases 8 - i,
            {
                out.push(note[i]);
                i += 1;
                proof { assert(out@ =~= h + note@.take(i as int)); }
            }
            proof { assert(note@.take(8) =~= note@); }
        } else {
            let mut i: usize = 0;
            while i < self.buffer.len()
                invariant i <= self.buffer@.len(), out@ == h + self.buffer@.take(i as int),
                decreases self.buffer@.len() - i,
            {
                out.push(self.buffer[i]);
                i += 1;
                proof { assert(out@ =~= h + self.buffer@.take(i as int)); }
            }
            proof { assert(self.buffer@.take(self.buffer@.len() as int) =~= self.buffer@); }
            if self.buffer[self.buffer.len() - 1] != 10 {
                out.push(10);
            }
        }
        let ghost body = out@;
        let rule: [u8; 19] = [45, 45, 45, 45, 45, 45, 45, 45, 45, 45, 45, 45, 45, 45, 45, 45, 45, 45, 10];
        proof { assert(rule@ =~= footer()); }
        let mut k: usize = 0;
        while k < 19
            invariant k <= 19, rule@ == footer(), out@ == body + footer().take(k as int),
            decreases 19 - k,
        {
            out.push(rule[k]);
            k += 1;
            proof { assert(out@ =~= body + footer().take(k as int)); }
        }
        proof {
            assert(footer().take(19) =~= footer());
            assert(out@ =~= print_spec(self.buffer@));
        }
        out
    }
}

} // verus!
