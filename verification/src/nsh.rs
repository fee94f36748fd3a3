//! The native shell `nsh`: line editing, path resolution against its
//! working directory, and what each command line asks of the kernel.
use vstd::prelude::*;
use crate::text::{trim, split_first, trimmed, split_spec};

verus! {

/// Longest command line (one cell stays free).
pub const LINE_CAP: usize = 256;
/// Longest path.
pub const PATH_CAP: usize = 256;

/// `p` with as much of `bytes` appended as fits in `PATH_CAP` bytes.
pub open spec fn push_capped(p: Seq<u8>, bytes: Seq<u8>) -> Seq<u8> {
    let room = if p.len() >= PATH_CAP { 0 } else { PATH_CAP - p.len() };
    p + bytes.take(if bytes.len() < room { bytes.len() as int } else { room as int })
}

/// `p` with trailing slashes removed (the root stays); the empty path
/// becomes the root.
pub open spec fn canonical_path(p: Seq<u8>) -> Seq<u8>
    decreases p.len(),
{
    if p.len() == 0 { seq![47u8] }
    else if p.len() > 1 && p.last() == 47 { canonical_path(p.drop_last()) }
    else { p }
}

/// Whether `s` starts with `prefix`.
pub open spec fn starts_with(s: Seq<u8>, prefix: Seq<u8>) -> bool {
    s.len() >= prefix.len() && s.subrange(0, prefix.len() as int) == prefix
}

/// `./`.
pub open spec fn dot_slash() -> Seq<u8> { seq![46u8, 47] }

/// The path an argument names relative to the working directory `cwd`:
/// `.` is the directory, absolute paths stay, `./x` and `x` are joined to
/// it; then trailing slashes go.
pub open spec fn resolve_arg_spec(cwd: Seq<u8>, arg: Seq<u8>) -> Seq<u8> {
    let joined = if arg == seq![46u8] {
        push_capped(Seq::empty(), cwd)
    } else if starts_with(arg, seq![47u8]) {
        push_capped(Seq::empty(), arg)
    } else {
        let base = push_capped(Seq::empty(), cwd);
        let sep = if cwd.len() > 1 { push_capped(base, seq![47u8]) } else { base };
        push_capped(sep, if starts_with(arg, dot_slash()) { arg.skip(2) } else { arg })
    };
    canonical_path(joined)
}

/// The program a command names: paths are resolved, bare names are looked
/// up in `/bin`.
pub open spec fn resolve_command_spec(cwd: Seq<u8>, cmd: Seq<u8>) -> Seq<u8> {
    if starts_with(cmd, seq![47u8]) || starts_with(cmd, dot_slash()) {
        resolve_arg_spec(cwd, cmd)
    } else {
        push_capped(push_capped(Seq::empty(), seq![47u8, 98, 105, 110, 47]), cmd)
    }
}

/// Appends as much of `bytes` as fits.
fn push(p: &mut Vec<u8>, bytes: &[u8])
    ensures final(p)@ == push_capped(old(p)@, bytes@),
{
    let room: usize = if p.len() >= PATH_CAP { 0 } else { PATH_CAP - p.len() };
    let count: usize = if bytes.len() < room { bytes.len() } else { room };
    let ghost start = p@;
    let mut i: usize = 0;
    while i < count
        invariant i <= count, count <= bytes@.len(), p@ == start + bytes@.take(i as int),
        decreases count - i,
    {
        p.push(bytes[i]);
        i += 1;
        proof { assert(p@ =~= start + bytes@.take(i as int)); }
    }
}

/// Removes trailing slashes; the empty path becomes the root.
fn canonicalize(p: &mut Vec<u8>)
    ensures final(p)@ == canonical_path(old(p)@),
{
    if p.len() == 0 {
        p.push(47);
        proof { assert(p@ =~= seq![47u8]); }
        return;
    }
    while p.len() > 1 && p[p.len() - 1] == 47
        invariant p@.len() >= 1, canonical_path(old(p)@) == canonical_path(p@),
        decreases p@.len(),
    {
        let ghost before = p@;
        p.pop();
        proof { assert(p@ =~= before.drop_last()); }
    }
}

fn is_prefix(s: &[u8], prefix: &[u8]) -> (r: bool)
    ensures r == starts_with(s@, prefix@),
{
    if s.len() < prefix.len() {
        return false;
    }
    let mut i: usize = 0;
    while i < prefix.len()
        invariant i <= prefix@.len(), prefix@.len() <= s@.len(), forall|k: int| 0 <= k < i ==> s@[k] == prefix@[k],
        decreases prefix@.len() - i,
    {
        if s[i] != prefix[i] {
            proof { assert(s@.subrange(0, prefix@.len() as int)[i as int] != prefix@[i as int]); }
            return false;
        }
        i += 1;
    }
    proof { assert(s@.subrange(0, prefix@.len() as int) =~= prefix@); }
    true
}

/// The path `arg` names for a shell in `cwd` (see `resolve_arg_spec`).
pub fn resolve_arg(cwd: &[u8], arg: &[u8]) -> (r: Vec<u8>)
    ensures r@ == resolve_arg_spec(cwd@, arg@),
{
    let mut out: Vec<u8> = Vec::new();
    let slash: [u8; 1] = [47];
    let dot: [u8; 1] = [46];
    let dot_sl: [u8; 2] = [46, 47];
    proof {
        assert(slash@ =~= seq![47u8]);
        assert(dot@ =~= seq![46u8]);
        assert(dot_sl@ =~= dot_slash());
    }
    if crate::linux_abi::bytes_eq(arg, &dot) {
        push(&mut out, cwd);
    } else if is_prefix(arg, &slash) {
        push(&mut out, arg);
    } else {
        push(&mut out, cwd);
        if cwd.len() > 1 {
            push(&mut out, &slash);
        }
        if is_prefix(arg, &dot_sl) {
            let rest = crate::userland::slice_copy(arg, 2, arg.len());
            proof { assert(rest@ =~= arg@.skip(2)); }
            push(&mut out, &rest);
        } else {
            push(&mut out, arg);
        }
    }
    canonicalize(&mut out);
    out
}

/// The program `cmd` names for a shell in `cwd` (see
/// `resolve_command_spec`).
pub fn resolve_command(cwd: &[u8], cmd: &[u8]) -> (r: Vec<u8>)
    ensures r@ == resolve_command_spec(cwd@, cmd@),
{
    let slash: [u8; 1] = [47];
    let dot_sl: [u8; 2] = [46, 47];
    proof {
        assert(slash@ =~= seq![47u8]);
        assert(dot_sl@ =~= dot_slash());
    }
    if is_prefix(cmd, &slash) || is_prefix(cmd, &dot_sl) {
        return resolve_arg(cwd, cmd);
    }
    let bin: [u8; 5] = [47, 98, 105, 110, 47];
    proof { assert(bin@ =~= seq![47u8, 98, 105, 110, 47]); }
    let mut out: Vec<u8> = Vec::new();
    push(&mut out, &bin);
    push(&mut out, cmd);
    out
}

/// Removing trailing slashes twice removes no more than once, and the
/// result is never empty and never ends in a slash (but for the root).
pub proof fn lemma_canonical_path_idempotent(p: Seq<u8>)
    ensures
        canonical_path(canonical_path(p)) == canonical_path(p),
        canonical_path(p).len() >= 1,
        canonical_path(p).len() > 1 ==> canonical_path(p).last() != 47,
    decreases p.len(),
{
    if p.len() > 1 && p.last() == 47 {
        lemma_canonical_path_idempotent(p.drop_last());
    }
}

/// An absolute argument names the same path whatever the working
/// directory.
pub proof fn lemma_absolute_arg(cwd1: Seq<u8>, cwd2: Seq<u8>, arg: Seq<u8>)
    requires starts_with(arg, seq![47u8]),
    ensures resolve_arg_spec(cwd1, arg) == resolve_arg_spec(cwd2, arg),
{
    assert(arg.subrange(0, 1)[0] == 47u8);
    assert(arg[0] == 47u8);
    assert(arg != seq![46u8]) by {
        if arg == seq![46u8] { assert(seq![46u8][0] == 46u8); }
    }
}

/// Resolving a path the shell already resolved changes nothing: `cd` into
/// the directory `ls` listed lands where `ls` looked.
pub proof fn lemma_resolve_arg_stable(cwd: Seq<u8>, arg: Seq<u8>)
    requires
        starts_with(arg, seq![47u8]),
        arg.len() <= PATH_CAP,
    ensures resolve_arg_spec(cwd, resolve_arg_spec(cwd, arg)) == resolve_arg_spec(cwd, arg),
{
    let joined = push_capped(Seq::empty(), arg);
    assert(joined =~= arg);
    lemma_canonical_path_idempotent(arg);
    let r = canonical_path(arg);
    lemma_canonical_prefix(arg);
    assert(arg.subrange(0, 1)[0] == 47u8);
    assert(r[0] == 47u8);
    assert(r != seq![46u8]) by {
        if r == seq![46u8] { assert(seq![46u8][0] == 46u8); }
    }
    assert(push_capped(Seq::empty(), r) =~= r);
}

/// Removing trailing slashes keeps the first byte and never lengthens.
proof fn lemma_canonical_prefix(p: Seq<u8>)
    requires p.len() >= 1,
    ensures
        canonical_path(p).len() >= 1,
        canonical_path(p)[0] == p[0],
        canonical_path(p).len() <= p.len(),
        starts_with(canonical_path(p), seq![p[0]]),
    decreases p.len(),
{
    if p.len() > 1 && p.last() == 47 {
        lemma_canonical_prefix(p.drop_last());
    }
    assert(canonical_path(p).subrange(0, 1) =~= seq![p[0]]);
}

/// What a key does to the line being edited.
pub open spec fn line_key_spec(line: Seq<u8>, key: u8) -> (Seq<u8>, Option<u8>, bool) {
    if key == 10 || key == 13 {
        (line, Some(10u8), true)
    } else if key == 8 || key == 127 {
        if line.len() > 0 { (line.drop_last(), Some(8u8), false) } else { (line, None, false) }
    } else if key >= 0x20 && line.len() < LINE_CAP - 1 {
        (line.push(key), Some(key), false)
    } else {
        (line, None, false)
    }
}

/// The line editor: Enter ends the line, Backspace and Delete erase, other
/// printable bytes are added while there is room. Returns the byte to echo
/// and whether the line is complete.
pub fn line_key(line: &mut Vec<u8>, key: u8) -> (r: (Option<u8>, bool))
    requires old(line)@.len() < LINE_CAP,
    ensures
        final(line)@ == line_key_spec(old(line)@, key).0,
        r.0 == line_key_spec(old(line)@, key).1,
        r.1 == line_key_spec(old(line)@, key).2,
        final(line)@.len() < LINE_CAP,
{
    if key == 10 || key == 13 {
        return (Some(10), true);
    }
    if key == 8 || key == 127 {
        if line.len() > 0 {
            line.pop();
            return (Some(8), false);
        }
        return (None, false);
    }
    if key >= 0x20 && line.len() < LINE_CAP - 1 {
        line.push(key);
        return (Some(key), false);
    }
    (None, false)
}

/// What a command line asks of the kernel.
pub enum NshAction {
    /// Nothing (an empty line).
    Nothing,
    /// Print the command list.
    Help,
    /// Print the version line.
    Version,
    /// Print the working directory.
    Pwd,
    /// List the directory at this path.
    List(Vec<u8>),
    /// Change to this directory if it is one.
    ChangeDir(Vec<u8>),
    /// Power off.
    Shutdown,
    /// Run the program at this path with this argument and wait for it.
    Run(Vec<u8>, Vec<u8>),
}

/// `NshAction` by the views of its paths.
pub enum NshPlan {
    Nothing,
    Help,
    Version,
    Pwd,
    List(Seq<u8>),
    ChangeDir(Seq<u8>),
    Shutdown,
    Run(Seq<u8>, Seq<u8>),
}

impl NshAction {
    /// The action with its paths as sequences.
    pub open spec fn plan(&self) -> NshPlan {
        match self {
            NshAction::Nothing => NshPlan::Nothing,
            NshAction::Help => NshPlan::Help,
            NshAction::Version => NshPlan::Version,
            NshAction::Pwd => NshPlan::Pwd,
            NshAction::List(p) => NshPlan::List(p@),
            NshAction::ChangeDir(p) => NshPlan::ChangeDir(p@),
            NshAction::Shutdown => NshPlan::Shutdown,
            NshAction::Run(p, a) => NshPlan::Run(p@, a@),
        }
    }
}

/// `help`, `version`, `pwd`, `ls`, `cd`, `shutdown`, `cat`, `echo`.
pub open spec fn word(w: int) -> Seq<u8> {
    if w == 0 { seq![104u8, 101, 108, 112] }
    else if w == 1 { seq![118u8, 101, 114, 115, 105, 111, 110] }
    else if w == 2 { seq![112u8, 119, 100] }
    else if w == 3 { seq![108u8, 115] }
    else if w == 4 { seq![99u8, 100] }
    else if w == 5 { seq![115u8, 104, 117, 116, 100, 111, 119, 110] }
    else if w == 6 { seq![99u8, 97, 116] }
    else { seq![101u8, 99, 104, 111] }
}

/// What the command line `input` of a shell in `cwd` asks for: the
/// built-ins `help`, `version`, `pwd`, `ls [dir]`, `cd [dir]` and
/// `shutdown`; everything else runs a program with one argument.
pub open spec fn run_line_spec(cwd: Seq<u8>, input: Seq<u8>) -> NshPlan {
    let line = trimmed(input, false);
    if line.len() == 0 {
        NshPlan::Nothing
    } else {
        let (cmd, arg) = split_spec(line);
        if cmd == word(0) { NshPlan::Help }
        else if cmd == word(1) { NshPlan::Version }
        else if cmd == word(2) { NshPlan::Pwd }
        else if cmd == word(3) { NshPlan::List(resolve_arg_spec(cwd, match arg { Some(a) => a, None => seq![46u8] })) }
        else if cmd == word(4) { NshPlan::ChangeDir(resolve_arg_spec(cwd, match arg { Some(a) => a, None => seq![47u8] })) }
        else if cmd == word(5) { NshPlan::Shutdown }
        else { NshPlan::Run(resolve_command_spec(cwd, cmd), external_arg_spec(cwd, arg)) }
    }
}

/// What the command line `input` asks for (see `run_line_spec`).
pub fn run_line(cwd: &[u8], input: &[u8]) -> (r: NshAction)
    ensures r.plan() == run_line_spec(cwd@, input@),
{
    let line = trim(input, false);
    if line.len() == 0 {
        return NshAction::Nothing;
    }
    let (cmd, arg) = split_first(&line);
    let help: [u8; 4] = [104, 101, 108, 112];
    let version: [u8; 7] = [118, 101, 114, 115, 105, 111, 110];
    let pwd: [u8; 3] = [112, 119, 100];
    let ls: [u8; 2] = [108, 115];
    let cd: [u8; 2] = [99, 100];
    let shutdown: [u8; 8] = [115, 104, 117, 116, 100, 111, 119, 110];
    proof {
        assert(help@ =~= word(0));
        assert(version@ =~= word(1));
        assert(pwd@ =~= word(2));
        assert(ls@ =~= word(3));
        assert(cd@ =~= word(4));
        assert(shutdown@ =~= word(5));
    }
    let ghost argv: Option<Seq<u8>> = if arg is Some { Some(arg.unwrap()@) } else { None };
    assert(argv == split_spec(line@).1);
    if crate::linux_abi::bytes_eq(&cmd, &help) {
        NshAction::Help
    } else if crate::linux_abi::bytes_eq(&cmd, &version) {
        NshAction::Version
    } else if crate::linux_abi::bytes_eq(&cmd, &pwd) {
        NshAction::Pwd
    } else if crate::linux_abi::bytes_eq(&cmd, &ls) {
        let path = match &arg { Some(a) => resolve_arg(cwd, a), None => { let d: [u8; 1] = [46]; proof { assert(d@ =~= seq![46u8]); } resolve_arg(cwd, &d) } };
        NshAction::List(path)
    } else if crate::linux_abi::bytes_eq(&cmd, &cd) {
        let path = match &arg { Some(a) => resolve_arg(cwd, a), None => { let d: [u8; 1] = [47]; proof { assert(d@ =~= seq![47u8]); } resolve_arg(cwd, &d) } };
        NshAction::ChangeDir(path)
    } else if crate::linux_abi::bytes_eq(&cmd, &shutdown) {
        NshAction::Shutdown
    } else {
        let program = resolve_command(cwd, &cmd);
        let argument = external_arg(cwd, &arg);
        NshAction::Run(program, argument)
    }
}

/// The argument an external program gets: paths are resolved, other
/// words passed as they are, none is empty.
pub open spec fn external_arg_spec(cwd: Seq<u8>, arg: Option<Seq<u8>>) -> Seq<u8> {
    match arg {
        Some(a) => if starts_with(a, seq![47u8]) || starts_with(a, dot_slash()) || a == seq![46u8] {
            resolve_arg_spec(cwd, a)
        } else { a },
        None => Seq::empty(),
    }
}

/// The argument an external program gets (see `external_arg_spec`).
pub fn external_arg(cwd: &[u8], arg: &Option<Vec<u8>>) -> (r: Vec<u8>)
    ensures r@ == external_arg_spec(cwd@, match arg { Some(a) => Some(a@), None => None }),
{
    match arg {
        Some(a) => {
            let slash: [u8; 1] = [47];
            let dot_sl: [u8; 2] = [46, 47];
            let dot: [u8; 1] = [46];
            proof {
                assert(slash@ =~= seq![47u8]);
                assert(dot_sl@ =~= dot_slash());
                assert(dot@ =~= seq![46u8]);
            }
            if is_prefix(a, &slash) || is_prefix(a, &dot_sl) || crate::linux_abi::bytes_eq(a, &dot) {
                resolve_arg(cwd, a)
            } else {
                crate::userland::slice_copy(a, 0, a.len())
            }
        },
        None => Vec::new(),
    }
}

} // verus!
