//! Live PTY sessions: a table of spawned sessions keyed by caller-chosen
//! ids, with write, resize and kill operations against it.
//!
//! The table is modelled by the set of live ids, [`PtyManager::sessions`].
//! The operating-system side of a session (the master/slave pair, the
//! writer, the reader and the child handle) is reached only through the
//! trusted wrappers in this module; everything that decides — lookup,
//! registration, removal, error selection, event naming — is verified.
//! The caller owns the two background tasks of a session: it runs the
//! relay loop with [`poll_relay`] and waits on the returned child handle,
//! emitting the named events.

use vstd::prelude::*;
use vstd::string::StringExecFns;
use crate::shellcmd::build_command;
use crate::strutil::str_eq;
use std::io::Read;
use std::io::Write;

verus! {

/// The default terminal geometry a session starts with.
pub const DEFAULT_ROWS: u16 = 24;

pub const DEFAULT_COLS: u16 = 80;

/// Declares `portable_pty::PtyPair`, the master/slave pair of one pty,
/// as an opaque type; dropping it closes both descriptors.
#[verifier::external_type_specification]
#[verifier::external_body]
pub struct ExPtyPair(portable_pty::PtyPair);

/// Declares `portable_pty::CommandBuilder`, the child-process
/// specification, as an opaque type.
#[verifier::external_type_specification]
#[verifier::external_body]
pub struct ExCommandBuilder(portable_pty::CommandBuilder);

/// Exclusively-owned writer into a session's master end. The boxed
/// `std::io::Write` trait object cannot be declared to the verifier, so the
/// whole struct is opaque.
#[verifier::external_body]
pub struct PtyWriter {
    inner: Box<dyn std::io::Write + Send>,
}

/// Reader of a session's output, owned by the session's relay loop. Opaque
/// for the same reason as [`PtyWriter`].
#[verifier::external_body]
pub struct PtyReader {
    inner: Box<dyn std::io::Read + Send>,
}

/// Handle on the child process, owned by the session's exit watcher.
/// Opaque for the same reason as [`PtyWriter`].
#[verifier::external_body]
pub struct ChildHandle {
    inner: Box<dyn portable_pty::Child + Send + Sync>,
}

/// Relies on `portable_pty::native_pty_system` and `PtySystem::openpty`:
/// allocates a fresh master/slave pair sized to the given geometry, with no
/// pixel geometry.
#[verifier::external_body]
fn ex_openpty(rows: u16, cols: u16) -> (r: Result<portable_pty::PtyPair, String>) {
    let sys = portable_pty::native_pty_system();
    sys.openpty(portable_pty::PtySize { rows, cols, pixel_width: 0, pixel_height: 0 }).map_err(
        |e| e.to_string(),
    )
}

/// Relies on `portable_pty::CommandBuilder::new`: a builder for the given
/// program with no arguments yet.
#[verifier::external_body]
fn ex_cmd_new(program: &str) -> (r: portable_pty::CommandBuilder) {
    portable_pty::CommandBuilder::new(program)
}

/// Relies on `portable_pty::CommandBuilder::arg`: appends one argument.
#[verifier::external_body]
fn ex_cmd_arg(cmd: &mut portable_pty::CommandBuilder, a: &str) {
    cmd.arg(a);
}

/// Relies on `portable_pty::CommandBuilder::env`: sets one environment
/// variable for the child.
#[verifier::external_body]
fn ex_cmd_env(cmd: &mut portable_pty::CommandBuilder, k: &str, v: &str) {
    cmd.env(k, v);
}

/// Relies on `portable_pty::CommandBuilder::cwd`: sets the child's working
/// directory.
#[verifier::external_body]
fn ex_cmd_cwd(cmd: &mut portable_pty::CommandBuilder, d: &str) {
    cmd.cwd(d);
}

/// Relies on `portable_pty::SlavePty::spawn_command`: spawns the built
/// command attached to the slave end of the pair.
#[verifier::external_body]
fn ex_spawn_child(pair: &portable_pty::PtyPair, cmd: portable_pty::CommandBuilder) -> (r: Result<
    ChildHandle,
    String,
>) {
    match pair.slave.spawn_command(cmd) {
        Ok(c) => Ok(ChildHandle { inner: c }),
        Err(e) => Err(e.to_string()),
    }
}

/// Relies on `portable_pty::MasterPty::take_writer`: the single writer into
/// the master end; a second take on the same pair fails.
#[verifier::external_body]
fn ex_take_writer(pair: &portable_pty::PtyPair) -> (r: Result<PtyWriter, String>) {
    match pair.master.take_writer() {
        Ok(w) => Ok(PtyWriter { inner: w }),
        Err(e) => Err(e.to_string()),
    }
}

/// Relies on `portable_pty::MasterPty::try_clone_reader`: a reader of the
/// output of the slave end.
#[verifier::external_body]
fn ex_clone_reader(pair: &portable_pty::PtyPair) -> (r: Result<PtyReader, String>) {
    match pair.master.try_clone_reader() {
        Ok(rd) => Ok(PtyReader { inner: rd }),
        Err(e) => Err(e.to_string()),
    }
}

/// Relies on `portable_pty::MasterPty::resize`: asks the kernel to change
/// the pty's geometry, with no pixel geometry.
#[verifier::external_body]
fn ex_resize(pair: &portable_pty::PtyPair, rows: u16, cols: u16) -> (r: Result<(), String>) {
    pair.master.resize(portable_pty::PtySize { rows, cols, pixel_width: 0, pixel_height: 0 })
        .map_err(|e| e.to_string())
}

impl PtyWriter {
    /// Relies on `std::io::Write::write_all`: on success the whole buffer
    /// was delivered to the writer.
    #[verifier::external_body]
    fn write_all_bytes(&mut self, data: &[u8]) -> (r: Result<(), String>) {
        self.inner.write_all(data).map_err(|e| e.to_string())
    }

    /// Relies on `std::io::Write::flush`: forces buffered bytes out.
    #[verifier::external_body]
    fn flush_bytes(&mut self) -> (r: Result<(), String>) {
        self.inner.flush().map_err(|e| e.to_string())
    }
}

/// One read from a session's output stream.
pub enum ReadOutcome {
    /// Some bytes arrived, in stream order.
    Data(Vec<u8>),
    /// End of stream: the pty closed.
    Eof,
    /// The read failed; the relay treats this like end of stream.
    Failed,
}

impl PtyReader {
    /// Relies on `std::io::Read::read`: a return of 0 means end of stream,
    /// and a successful read of `n` fills the first `n` bytes of the 4096
    /// byte buffer.
    #[verifier::external_body]
    pub fn read_chunk(&mut self) -> (r: ReadOutcome)
        ensures
            r matches ReadOutcome::Data(v) ==> 1 <= v@.len() <= 4096,
    {
        let mut buf = [0u8; 4096];
        match self.inner.read(&mut buf) {
            Ok(0) => ReadOutcome::Eof,
            Ok(n) => ReadOutcome::Data(buf[..n].to_vec()),
            Err(_) => ReadOutcome::Failed,
        }
    }
}

impl ChildHandle {
    /// Relies on `portable_pty::Child::wait`: blocks until the child
    /// process has terminated by any means; the result says whether a wait
    /// status was obtained.
    #[verifier::external_body]
    pub fn wait_exit(&mut self) -> (r: bool) {
        self.inner.wait().is_ok()
    }
}

/// What `String::from_utf8_lossy` decodes the given bytes to: a function of
/// the bytes alone.
pub uninterp spec fn lossy_utf8(bytes: Seq<u8>) -> Seq<char>;

/// Relies on `String::from_utf8_lossy`: malformed sequences are replaced,
/// never rejected; ASCII bytes decode to themselves.
#[verifier::external_body]
fn ex_utf8_lossy(bytes: &[u8]) -> (r: String)
    ensures
        r@ == lossy_utf8(bytes@),
        (forall|i: int| 0 <= i < bytes@.len() ==> #[trigger] bytes@[i] < 128) ==> r@.len()
            == bytes@.len() && (forall|i: int|
            0 <= i < bytes@.len() ==> #[trigger] r@[i] as u32 == bytes@[i] as u32),
{
    String::from_utf8_lossy(bytes).into_owned()
}

/// Name of the output event of the session with this id.
pub fn output_event_name(id: &str) -> (r: String)
    ensures
        r@ == "pty-output-"@ + id@,
{
    let mut s = String::from_str("pty-output-");
    s.append(id);
    s
}

/// Name of the exit event of the session with this id.
pub fn exit_event_name(id: &str) -> (r: String)
    ensures
        r@ == "pty-exit-"@ + id@,
{
    let mut s = String::from_str("pty-exit-");
    s.append(id);
    s
}

/// What the relay loop does next: emit an output event and continue, or
/// emit the exit event and stop.
pub enum RelayEvent {
    /// Emit the first string as the event name with the second as payload.
    Output(String, String),
    /// The stream ended: emit this event name once and stop the loop.
    Closed(String),
}

/// The relay decision for one read outcome: bytes become the session's
/// output event carrying their lossy decoding; end of stream and a failed
/// read both become the session's exit event.
pub fn relay_event_for(id: &str, outcome: ReadOutcome) -> (r: RelayEvent)
    ensures
        outcome matches ReadOutcome::Data(bytes) ==> r matches RelayEvent::Output(n, p) && n@
            == "pty-output-"@ + id@ && p@ == lossy_utf8(bytes@),
        !(outcome matches ReadOutcome::Data(_)) ==> (r matches RelayEvent::Closed(n) && n@
            == "pty-exit-"@ + id@),
{
    match outcome {
        ReadOutcome::Data(bytes) => {
            let payload = ex_utf8_lossy(bytes.as_slice());
            RelayEvent::Output(output_event_name(id), payload)
        },
        ReadOutcome::Eof => RelayEvent::Closed(exit_event_name(id)),
        ReadOutcome::Failed => RelayEvent::Closed(exit_event_name(id)),
    }
}

/// One step of a session's relay loop: read once, decide what to emit.
pub fn poll_relay(id: &str, reader: &mut PtyReader) -> (r: RelayEvent)
    ensures
        r matches RelayEvent::Output(n, _) ==> n@ == "pty-output-"@ + id@,
        r matches RelayEvent::Closed(n) ==> n@ == "pty-exit-"@ + id@,
{
    let outcome = reader.read_chunk();
    relay_event_for(id, outcome)
}

/// Why a session operation failed.
#[derive(Debug)]
pub enum PtyError {
    /// No live session has this id.
    NotFound(String),
    /// A PTY or process operation failed; the detail is the OS layer's text.
    Backend(String),
}

impl PtyError {
    /// The caller-visible text of the error, naming the missing id for a
    /// lookup failure.
    pub fn message(&self) -> (r: String)
        ensures
            self matches PtyError::NotFound(id) ==> r@ == "Terminal "@ + id@ + " not found"@,
            self matches PtyError::Backend(d) ==> r@ == d@,
    {
        match self {
            PtyError::NotFound(id) => {
                let mut s = String::from_str("Terminal ");
                s.append(id.as_str());
                s.append(" not found");
                s
            },
            PtyError::Backend(d) => d.clone(),
        }
    }
}

/// The handles of a freshly spawned session that its two background tasks
/// own: the relay loop's reader and the exit watcher's child handle.
pub struct SessionTasks {
    pub reader: PtyReader,
    pub child: ChildHandle,
}

/// One live session as the table stores it.
struct PtyInstance {
    pair: portable_pty::PtyPair,
    writer: PtyWriter,
}

/// The session table: a mapping from id to live session, owned exclusively
/// by the manager. Its abstract state is the set of live ids.
pub struct PtyManager {
    instances: Vec<(String, PtyInstance)>,
}

impl PtyManager {
    /// The ids of the live sessions, in table order.
    pub closed spec fn ids(&self) -> Seq<Seq<char>> {
        Seq::new(self.instances@.len(), |i: int| self.instances@[i].0@)
    }

    /// The abstract state: which ids have a live session.
    pub closed spec fn sessions(&self) -> Set<Seq<char>> {
        self.ids().to_set()
    }

    /// Well-formedness: at most one session per id.
    pub closed spec fn wf(&self) -> bool {
        forall|a: int, b: int| 0 <= a < b < self.ids().len() ==> self.ids()[a] != self.ids()[b]
    }

    pub fn new() -> (r: PtyManager)
        ensures
            r.wf(),
            r.sessions() == Set::<Seq<char>>::empty(),
    {
        let r = PtyManager { instances: Vec::new() };
        proof {
            assert(r.sessions() =~= Set::<Seq<char>>::empty());
        }
        r
    }

    /// The index of the session with this id, if one is live.
    fn find_index(&self, id: &str) -> (r: Option<usize>)
        ensures
            match r {
                Some(i) => i < self.instances@.len() && self.instances@[i as int].0@ == id@,
                None => !self.sessions().contains(id@),
            },
    {
        let n = self.instances.len();
        let mut i: usize = 0;
        while i < n
            invariant
                n == self.instances@.len(),
                i <= n,
                forall|j: int| 0 <= j < i ==> self.instances@[j].0@ != id@,
            decreases n - i,
        {
            if str_eq(self.instances[i].0.as_str(), id) {
                return Some(i);
            }
            i += 1;
        }
        proof {
            assert(forall|j: int| 0 <= j < self.ids().len() ==> self.ids()[j] != id@);
            assert(!self.ids().contains(id@));
        }
        None
    }

    /// Whether a session with this id is live.
    pub fn has_session(&self, id: &str) -> (r: bool)
        ensures
            r == self.sessions().contains(id@),
    {
        match self.find_index(id) {
            Some(i) => {
                proof {
                    assert(self.ids()[i as int] == id@);
                    assert(self.ids().contains(id@));
                }
                true
            },
            None => false,
        }
    }

    /// Register a session under an id, replacing any stale session that
    /// still holds the same id.
    fn store(&mut self, id: String, inst: PtyInstance)
        requires
            old(self).wf(),
        ensures
            final(self).wf(),
            final(self).sessions() == old(self).sessions().insert(id@),
    {
        let ghost ids0 = self.ids();
        match self.find_index(id.as_str()) {
            Some(i) => {
                let _stale = self.instances.remove(i);
                proof {
                    assert(self.ids() =~= ids0.remove(i as int));
                    lemma_ids_remove(ids0, i as int);
                    assert(ids0[i as int] == id@);
                }
                let ghost ids1 = self.ids();
                self.instances.push((id, inst));
                proof {
                    assert(self.ids() =~= ids1.push(id@));
                    lemma_ids_push(ids1, id@);
                    assert(self.sessions() =~= ids0.to_set().insert(id@));
                }
            },
            None => {
                self.instances.push((id, inst));
                proof {
                    assert(!ids0.contains(id@));
                    assert(self.ids() =~= ids0.push(id@));
                    lemma_ids_push(ids0, id@);
                }
            },
        }
    }

    /// Create a session: open a pty at the default geometry, spawn the
    /// shell running the built command line in the given directory with the
    /// fixed terminal environment, store the session, and hand the caller
    /// the handles its relay and exit-watcher tasks own. The session is in
    /// the table before this returns, so an immediate write or resize can
    /// never miss it. On any failure nothing is registered.
    pub fn spawn(&mut self, id: String, cwd: String, command: Vec<String>, shell: &str) -> (r:
        Result<SessionTasks, PtyError>)
        requires
            old(self).wf(),
        ensures
            final(self).wf(),
            r is Ok ==> final(self).sessions() == old(self).sessions().insert(id@),
            r is Err ==> final(self).sessions() == old(self).sessions(),
            r matches Err(e) ==> e matches PtyError::Backend(_),
    {
        let pair = match ex_openpty(DEFAULT_ROWS, DEFAULT_COLS) {
            Ok(p) => p,
            Err(e) => {
                return Err(PtyError::Backend(e));
            },
        };
        let cmd_str = build_command(cwd.as_str(), &command);
        let mut builder = ex_cmd_new(shell);
        ex_cmd_arg(&mut builder, "-c");
        ex_cmd_arg(&mut builder, cmd_str.as_str());
        ex_cmd_cwd(&mut builder, cwd.as_str());
        ex_cmd_env(&mut builder, "TERM", "xterm-256color");
        ex_cmd_env(&mut builder, "COLORTERM", "truecolor");
        let child = match ex_spawn_child(&pair, builder) {
            Ok(c) => c,
            Err(e) => {
                return Err(PtyError::Backend(e));
            },
        };
        let writer = match ex_take_writer(&pair) {
            Ok(w) => w,
            Err(e) => {
                return Err(PtyError::Backend(e));
            },
        };
        let reader = match ex_clone_reader(&pair) {
            Ok(rd) => rd,
            Err(e) => {
                return Err(PtyError::Backend(e));
            },
        };
        self.store(id, PtyInstance { pair, writer });
        Ok(SessionTasks { reader, child })
    }

    /// Forward bytes to a session's input and flush them, so that a
    /// successful return means delivery into the pty's input buffer. Fails
    /// with the not-found error exactly when no session has the id; the set
    /// of live sessions never changes.
    pub fn write(&mut self, id: &str, data: &[u8]) -> (r: Result<(), PtyError>)
        requires
            old(self).wf(),
        ensures
            final(self).wf(),
            final(self).sessions() == old(self).sessions(),
            !old(self).sessions().contains(id@) ==> (r matches Err(PtyError::NotFound(m)) && m@
                == id@),
            old(self).sessions().contains(id@) ==> !(r matches Err(PtyError::NotFound(_))),
    {
        let ghost ids0 = self.ids();
        match self.find_index(id) {
            None => Err(PtyError::NotFound(id.to_owned())),
            Some(i) => {
                let mut entry = self.instances.remove(i);
                let res = match entry.1.writer.write_all_bytes(data) {
                    Ok(()) => entry.1.writer.flush_bytes(),
                    Err(e) => Err(e),
                };
                self.instances.insert(i, entry);
                proof {
                    assert(self.ids() =~= ids0);
                    assert(ids0[i as int] == id@);
                    assert(old(self).sessions().contains(id@));
                }
                match res {
                    Ok(()) => Ok(()),
                    Err(e) => Err(PtyError::Backend(e)),
                }
            },
        }
    }

    /// Ask the kernel for a new geometry on a session's pty, with no pixel
    /// geometry. Purely a size hint: buffered output is unaffected. Fails
    /// with the not-found error exactly when no session has the id.
    pub fn resize(&self, id: &str, rows: u16, cols: u16) -> (r: Result<(), PtyError>)
        ensures
            !self.sessions().contains(id@) ==> (r matches Err(PtyError::NotFound(m)) && m@
                == id@),
            self.sessions().contains(id@) ==> !(r matches Err(PtyError::NotFound(_))),
    {
        match self.find_index(id) {
            None => Err(PtyError::NotFound(id.to_owned())),
            Some(i) => {
                proof {
                    assert(self.ids()[i as int] == id@);
                    assert(self.sessions().contains(id@));
                }
                match ex_resize(&self.instances[i].1.pair, rows, cols) {
                    Ok(()) => Ok(()),
                    Err(e) => Err(PtyError::Backend(e)),
                }
            },
        }
    }

    /// Remove a session from the table and drop its handles; closing the
    /// pair's descriptors is what signals the child to exit, and nothing
    /// waits for that exit here. Succeeds exactly when the id was live, and
    /// fails with the not-found error otherwise.
    pub fn kill(&mut self, id: &str) -> (r: Result<(), PtyError>)
        requires
            old(self).wf(),
        ensures
            final(self).wf(),
            r is Ok <==> old(self).sessions().contains(id@),
            r is Ok ==> final(self).sessions() == old(self).sessions().remove(id@),
            r is Err ==> final(self).sessions() == old(self).sessions(),
            r matches Err(e) ==> (e matches PtyError::NotFound(m) && m@ == id@),
    {
        let ghost ids0 = self.ids();
        match self.find_index(id) {
            None => Err(PtyError::NotFound(id.to_owned())),
            Some(i) => {
                let _gone = self.instances.remove(i);
                proof {
                    assert(ids0[i as int] == id@);
                    assert(ids0.contains(id@));
                    assert(self.ids() =~= ids0.remove(i as int));
                    lemma_ids_remove(ids0, i as int);
                }
                Ok(())
            },
        }
    }
}

impl Default for PtyManager {
    fn default() -> (r: PtyManager)
        ensures
            r.wf(),
            r.sessions() == Set::<Seq<char>>::empty(),
    {
        PtyManager::new()
    }
}

/// Removing one index of a duplicate-free sequence keeps it duplicate-free
/// and removes exactly that id from the set of ids.
proof fn lemma_ids_remove(ids: Seq<Seq<char>>, i: int)
    requires
        0 <= i < ids.len(),
        forall|a: int, b: int| 0 <= a < b < ids.len() ==> ids[a] != ids[b],
    ensures
        forall|a: int, b: int|
            0 <= a < b < ids.remove(i).len() ==> ids.remove(i)[a] != ids.remove(i)[b],
        ids.remove(i).to_set() == ids.to_set().remove(ids[i]),
{
    ids.remove_ensures(i);
    assert forall|a: int, b: int|
        0 <= a < b < ids.remove(i).len() implies ids.remove(i)[a] != ids.remove(i)[b] by {
        let a0 = if a < i {
            a
        } else {
            a + 1
        };
        let b0 = if b < i {
            b
        } else {
            b + 1
        };
        assert(ids.remove(i)[a] == ids[a0]);
        assert(ids.remove(i)[b] == ids[b0]);
    }
    assert forall|s: Seq<char>|
        ids.remove(i).to_set().contains(s) implies ids.to_set().remove(ids[i]).contains(s) by {
        let k = choose|k: int| 0 <= k < ids.remove(i).len() && ids.remove(i)[k] == s;
        let k0 = if k < i {
            k
        } else {
            k + 1
        };
        assert(ids[k0] == s);
        assert(ids.contains(s));
        assert(k0 != i);
        assert(s != ids[i]);
    }
    assert forall|s: Seq<char>|
        ids.to_set().remove(ids[i]).contains(s) implies ids.remove(i).to_set().contains(s) by {
        let k = choose|k: int| 0 <= k < ids.len() && ids[k] == s;
        assert(k != i);
        let k1 = if k < i {
            k
        } else {
            k - 1
        };
        assert(ids.remove(i)[k1] == s);
        assert(ids.remove(i).contains(s));
    }
    assert(ids.remove(i).to_set() =~= ids.to_set().remove(ids[i]));
}

/// Appending a fresh id to a duplicate-free sequence keeps it
/// duplicate-free and adds exactly that id to the set of ids.
proof fn lemma_ids_push(ids: Seq<Seq<char>>, x: Seq<char>)
    requires
        !ids.contains(x),
        forall|a: int, b: int| 0 <= a < b < ids.len() ==> ids[a] != ids[b],
    ensures
        forall|a: int, b: int|
            0 <= a < b < ids.push(x).len() ==> ids.push(x)[a] != ids.push(x)[b],
        ids.push(x).to_set() == ids.to_set().insert(x),
{
    assert forall|a: int, b: int|
        0 <= a < b < ids.push(x).len() implies ids.push(x)[a] != ids.push(x)[b] by {
        if b == ids.len() {
            assert(ids.push(x)[a] == ids[a]);
            assert(ids.push(x)[b] == x);
            assert(ids[a] != x) by {
                if ids[a] == x {
                    assert(ids.contains(x));
                }
            }
        } else {
            assert(ids.push(x)[a] == ids[a]);
            assert(ids.push(x)[b] == ids[b]);
        }
    }
    assert forall|s: Seq<char>|
        ids.push(x).to_set().contains(s) implies ids.to_set().insert(x).contains(s) by {
        let k = choose|k: int| 0 <= k < ids.push(x).len() && ids.push(x)[k] == s;
        if k == ids.len() {
            assert(s == x);
        } else {
            assert(ids[k] == s);
            assert(ids.contains(s));
        }
    }
    assert forall|s: Seq<char>|
        ids.to_set().insert(x).contains(s) implies ids.push(x).to_set().contains(s) by {
        if s == x {
            assert(ids.push(x)[ids.len() as int] == x);
            assert(ids.push(x).contains(s));
        } else {
            let k = choose|k: int| 0 <= k < ids.len() && ids[k] == s;
            assert(ids.push(x)[k] == s);
            assert(ids.push(x).contains(s));
        }
    }
    assert(ids.push(x).to_set() =~= ids.to_set().insert(x));
}

/// A spawned session is immediately visible: with the write and resize
/// contracts, a write or resize that follows a successful spawn of the same
/// id can never fail with the not-found error.
pub proof fn lemma_spawn_then_lookup(pre: PtyManager, post: PtyManager, id: Seq<char>)
    requires
        post.sessions() == pre.sessions().insert(id),
    ensures
        post.sessions().contains(id),
{
}

/// After a successful kill of an id the table no longer holds it: with the
/// write contract, a write that follows the kill fails with the not-found
/// error.
pub proof fn lemma_kill_then_write_not_found(pre: PtyManager, post: PtyManager, id: Seq<char>)
    requires
        post.sessions() == pre.sessions().remove(id),
    ensures
        !post.sessions().contains(id),
{
}

}
