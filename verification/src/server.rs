//! The server-side per-connection reconstruction state machine: one handler
//! per accepted connection, with two states — no file open, or exactly one
//! file open — driven by the decoded messages, together with an in-memory
//! model of the slice of the filesystem the connection writes. The laws at
//! the end relate a whole session's messages to what ends up on disk.
use crate::digest::{digest_bytes, sha1_hex_of};
use crate::packet::{Packet, PacketView};
use vstd::prelude::*;
use vstd::utf8::encode_utf8;

verus! {

/// Per-connection state: the path of the file currently open, if any, and
/// whether the session has ended.
pub struct ServerHandler {
    pub open_path: Option<String>,
    pub done: bool,
}

/// The mathematical value of a `ServerHandler`.
#[verifier::ext_equal]
pub struct HandlerView {
    pub open_path: Option<Seq<char>>,
    pub done: bool,
}

impl View for ServerHandler {
    type V = HandlerView;

    open spec fn view(&self) -> HandlerView {
        HandlerView {
            open_path: match self.open_path {
                Some(ref p) => Some(p@),
                None => None,
            },
            done: self.done,
        }
    }
}

/// What the connection worker must do after one step of the state machine.
pub enum ServerAction {
    /// Create this directory, and its missing ancestors, under the backup
    /// root; creating an existing directory is not an error.
    CreateDir { path: String },
    /// Create or truncate the file at this path under the backup root,
    /// creating missing ancestor directories, and hold it open. A handle
    /// left open by an earlier opener is discarded without finalizing it.
    OpenFile { path: String },
    /// Append the bytes to the file open at this path.
    AppendChunk { path: String, data: Vec<u8> },
    /// Flush and close the file open at this path, digest it, and send the
    /// acknowledgment carrying the digest.
    FinishFile { path: String },
    /// Nothing: a chunk arrived with no file open.
    Ignore,
    /// Nothing on disk; report a protocol anomaly and carry on.
    ReportAnomaly,
    /// Stop reading frames and close the connection.
    CloseConnection,
}

/// The mathematical value of a `ServerAction`.
#[verifier::ext_equal]
pub enum ActionView {
    CreateDir { path: Seq<char> },
    OpenFile { path: Seq<char> },
    AppendChunk { path: Seq<char>, data: Seq<u8> },
    FinishFile { path: Seq<char> },
    Ignore,
    ReportAnomaly,
    CloseConnection,
}

impl View for ServerAction {
    type V = ActionView;

    open spec fn view(&self) -> ActionView {
        match self {
            ServerAction::CreateDir { path } => ActionView::CreateDir { path: path@ },
            ServerAction::OpenFile { path } => ActionView::OpenFile { path: path@ },
            ServerAction::AppendChunk { path, data } => ActionView::AppendChunk {
                path: path@,
                data: data@,
            },
            ServerAction::FinishFile { path } => ActionView::FinishFile { path: path@ },
            ServerAction::Ignore => ActionView::Ignore,
            ServerAction::ReportAnomaly => ActionView::ReportAnomaly,
            ServerAction::CloseConnection => ActionView::CloseConnection,
        }
    }
}

/// The connection state after one message. A terminated session never moves
/// again; otherwise only an opener or a closer changes the state.
pub open spec fn next_state(s: HandlerView, m: PacketView) -> HandlerView {
    if s.done {
        s
    } else {
        match m {
            PacketView::BeginFile { relative_path, .. } => HandlerView {
                open_path: Some(relative_path),
                done: false,
            },
            PacketView::EndFile => HandlerView { open_path: None, done: false },
            PacketView::EndSession => HandlerView { open_path: s.open_path, done: true },
            _ => s,
        }
    }
}

/// The action one message demands of the connection worker, exactly the
/// server's transition table.
pub open spec fn step_action(s: HandlerView, m: PacketView) -> ActionView {
    if s.done {
        ActionView::Ignore
    } else {
        match m {
            PacketView::MakeDir { relative_path } => ActionView::CreateDir {
                path: relative_path,
            },
            PacketView::BeginFile { relative_path, .. } => ActionView::OpenFile {
                path: relative_path,
            },
            PacketView::FileChunk { data } => match s.open_path {
                Some(p) => ActionView::AppendChunk { path: p, data },
                None => ActionView::Ignore,
            },
            PacketView::EndFile => match s.open_path {
                Some(p) => ActionView::FinishFile { path: p },
                None => ActionView::ReportAnomaly,
            },
            PacketView::EndFileAck { .. } => ActionView::ReportAnomaly,
            PacketView::EndSession => ActionView::CloseConnection,
        }
    }
}

impl ServerHandler {
    /// A handler for a freshly accepted connection: no file open, session
    /// live.
    pub fn new() -> (r: ServerHandler)
        ensures
            r@ == (HandlerView { open_path: None, done: false }),
    {
        ServerHandler { open_path: None, done: false }
    }

    /// Steps the state machine by one message: moves to exactly the state
    /// `next_state` names and demands exactly the action `step_action`
    /// names.
    pub fn step(&mut self, msg: Packet) -> (a: ServerAction)
        ensures
            final(self)@ == next_state(old(self)@, msg@),
            a@ == step_action(old(self)@, msg@),
    {
        if self.done {
            return ServerAction::Ignore;
        }
        match msg {
            Packet::MakeDir { relative_path } => ServerAction::CreateDir { path: relative_path },
            Packet::BeginFile { relative_path, .. } => {
                self.open_path = Some(relative_path.clone());
                ServerAction::OpenFile { path: relative_path }
            },
            Packet::FileChunk { data } => {
                match &self.open_path {
                    Some(p) => ServerAction::AppendChunk { path: p.clone(), data },
                    None => ServerAction::Ignore,
                }
            },
            Packet::EndFile => {
                match self.open_path.take() {
                    Some(p) => ServerAction::FinishFile { path: p },
                    None => ServerAction::ReportAnomaly,
                }
            },
            Packet::EndFileAck { .. } => ServerAction::ReportAnomaly,
            Packet::EndSession => {
                self.done = true;
                ServerAction::CloseConnection
            },
        }
    }
}

/// One reconstructed file of the model: a path under the backup root and
/// the bytes written to it.
pub struct FileRecord {
    pub path: String,
    pub content: Vec<u8>,
}

/// The mathematical value of a `FileRecord`.
#[verifier::ext_equal]
pub struct FileRecordView {
    pub path: Seq<char>,
    pub content: Seq<u8>,
}

impl View for FileRecord {
    type V = FileRecordView;

    open spec fn view(&self) -> FileRecordView {
        FileRecordView { path: self.path@, content: self.content@ }
    }
}

impl DeepView for FileRecord {
    type V = FileRecordView;

    open spec fn deep_view(&self) -> FileRecordView {
        self.view()
    }
}

/// The set of directories announced so far. The worker creates each with
/// its missing ancestors; the model tracks the announced paths themselves.
pub open spec fn dir_set(ds: Seq<Seq<char>>) -> Set<Seq<char>>
    decreases ds.len(),
{
    if ds.len() == 0 {
        Set::empty()
    } else {
        dir_set(ds.drop_last()).insert(ds.last())
    }
}

/// The file contents a record list denotes: later records for a path
/// supersede earlier ones, as writing through a fresh handle does.
pub open spec fn files_map(records: Seq<FileRecordView>) -> Map<Seq<char>, Seq<u8>>
    decreases records.len(),
{
    if records.len() == 0 {
        Map::empty()
    } else {
        files_map(records.drop_last()).insert(records.last().path, records.last().content)
    }
}

/// In-memory model of the slice of the filesystem one connection touches.
pub struct ModelFs {
    pub dirs: Vec<String>,
    pub files: Vec<FileRecord>,
}

/// The mathematical value of a `ModelFs`: the set of announced directories
/// and the map from file path to content.
#[verifier::ext_equal]
pub struct FsView {
    pub dirs: Set<Seq<char>>,
    pub files: Map<Seq<char>, Seq<u8>>,
}

impl View for ModelFs {
    type V = FsView;

    open spec fn view(&self) -> FsView {
        FsView { dirs: dir_set(self.dirs.deep_view()), files: files_map(self.files.deep_view()) }
    }
}

/// The filesystem after one action: directories gain the announced path,
/// an opener truncates, a chunk extends what is already at the open path,
/// and everything else leaves the filesystem alone.
pub open spec fn apply_action_spec(fs: FsView, a: ActionView) -> FsView {
    match a {
        ActionView::CreateDir { path } => FsView { dirs: fs.dirs.insert(path), files: fs.files },
        ActionView::OpenFile { path } => FsView {
            dirs: fs.dirs,
            files: fs.files.insert(path, Seq::empty()),
        },
        ActionView::AppendChunk { path, data } => FsView {
            dirs: fs.dirs,
            files: fs.files.insert(
                path,
                if fs.files.dom().contains(path) {
                    fs.files[path] + data
                } else {
                    data
                },
            ),
        },
        _ => fs,
    }
}

/// The filesystem after one message arrives at a connection in state `s`:
/// the effect of the action the transition table demands.
pub open spec fn machine_fs(fs: FsView, s: HandlerView, m: PacketView) -> FsView {
    apply_action_spec(fs, step_action(s, m))
}

/// Looking a path up in the file contents finds the last record for it, and
/// finds one exactly when some record names it. `hi` bounds the search: no
/// record at or past `hi` names the path.
proof fn lemma_lookup_prefix(records: Seq<FileRecordView>, hi: int, p: Seq<char>)
    requires
        0 <= hi <= records.len(),
        forall|j: int| hi <= j < records.len() ==> (#[trigger] records[j].path) != p,
    ensures
        files_map(records).dom().contains(p) == files_map(records.take(hi)).dom().contains(p),
        files_map(records).dom().contains(p) ==> files_map(records)[p] == files_map(
            records.take(hi),
        )[p],
    decreases records.len() - hi,
{
    if hi == records.len() {
        assert(records.take(hi) =~= records);
    } else {
        let shorter = records.drop_last();
        assert(records.last().path != p);
        lemma_lookup_prefix(shorter, hi, p);
        assert(shorter.take(hi) =~= records.take(hi));
    }
}

/// A record list has created a directory exactly when some record names it.
proof fn lemma_dir_set_membership(ds: Seq<Seq<char>>, p: Seq<char>)
    ensures
        dir_set(ds).contains(p) <==> (exists|j: int| 0 <= j < ds.len() && ds[j] == p),
    decreases ds.len(),
{
    if ds.len() == 0 {
    } else {
        lemma_dir_set_membership(ds.drop_last(), p);
        if ds.last() == p {
            assert(ds[ds.len() - 1] == p);
        } else if exists|j: int| 0 <= j < ds.len() && ds[j] == p {
            let j = choose|j: int| 0 <= j < ds.len() && ds[j] == p;
            assert(ds.drop_last()[j] == p);
        }
    }
}

impl ModelFs {
    /// An untouched filesystem model.
    pub fn new() -> (r: ModelFs)
        ensures
            r@ == (FsView { dirs: Set::empty(), files: Map::empty() }),
    {
        let r = ModelFs { dirs: Vec::new(), files: Vec::new() };
        proof {
            assert(r.dirs.deep_view() =~= Seq::<Seq<char>>::empty());
            assert(r.files.deep_view() =~= Seq::<FileRecordView>::empty());
            assert(r@ =~~= (FsView { dirs: Set::empty(), files: Map::empty() }));
        }
        r
    }

    /// The bytes currently at `path`, if any record names it.
    pub fn lookup(&self, path: &String) -> (r: Option<Vec<u8>>)
        ensures
            match r {
                Some(c) => self@.files.dom().contains(path@) && c@ == self@.files[path@],
                None => !self@.files.dom().contains(path@),
            },
    {
        let ghost dv = self.files.deep_view();
        let mut i = self.files.len();
        while i > 0
            invariant
                i <= self.files.len(),
                dv == self.files.deep_view(),
                forall|j: int| i <= j < dv.len() ==> (#[trigger] dv[j].path) != path@,
            decreases i,
        {
            i = i - 1;
            let record = &self.files[i];
            if record.path == *path {
                let content = vstd::slice::slice_to_vec(record.content.as_slice());
                proof {
                    lemma_lookup_prefix(dv, i + 1, path@);
                    assert(dv.take(i + 1).drop_last() =~= dv.take(i as int));
                    assert(dv.take(i + 1).last() == dv[i as int]);
                    assert(files_map(dv.take(i + 1)) == files_map(dv.take(i as int)).insert(
                        dv[i as int].path,
                        dv[i as int].content,
                    ));
                }
                return Some(content);
            }
        }
        proof {
            lemma_lookup_prefix(dv, 0, path@);
            assert(dv.take(0) =~= Seq::<FileRecordView>::empty());
        }
        None
    }

    /// Whether the directory at `path` has been created.
    pub fn has_dir(&self, path: &String) -> (r: bool)
        ensures
            r == self@.dirs.contains(path@),
    {
        let ghost ds = self.dirs.deep_view();
        let n = self.dirs.len();
        let mut i: usize = 0;
        while i < n
            invariant
                i <= n,
                n == self.dirs.len(),
                ds == self.dirs.deep_view(),
                forall|j: int| 0 <= j < i ==> ds[j] != path@,
            decreases n - i,
        {
            if self.dirs[i] == *path {
                proof {
                    lemma_dir_set_membership(ds, path@);
                    assert(ds[i as int] == path@);
                }
                return true;
            }
            i = i + 1;
        }
        proof {
            lemma_dir_set_membership(ds, path@);
        }
        false
    }

    /// Applies one action's filesystem effect to the model, exactly as
    /// `apply_action_spec` says.
    pub fn apply(&mut self, action: &ServerAction)
        ensures
            final(self)@ == apply_action_spec(old(self)@, action@),
    {
        match action {
            ServerAction::CreateDir { path } => {
                let ghost prev = self.dirs.deep_view();
                self.dirs.push(path.clone());
                proof {
                    assert(self.dirs.deep_view() =~~= prev.push(path@));
                    assert(self.dirs.deep_view().drop_last() =~= prev);
                    assert(self@ =~~= apply_action_spec(old(self)@, action@));
                }
            },
            ServerAction::OpenFile { path } => {
                let ghost prev = self.files.deep_view();
                self.files.push(FileRecord { path: path.clone(), content: Vec::new() });
                proof {
                    assert(self.files.deep_view() =~~= prev.push(
                        FileRecordView { path: path@, content: Seq::empty() },
                    ));
                    assert(self.files.deep_view().drop_last() =~= prev);
                    assert(self@ =~~= apply_action_spec(old(self)@, action@));
                }
            },
            ServerAction::AppendChunk { path, data } => {
                let ghost prev = self.files.deep_view();
                let mut content = match self.lookup(path) {
                    Some(c) => c,
                    None => Vec::new(),
                };
                let mut tail = vstd::slice::slice_to_vec(data.as_slice());
                content.append(&mut tail);
                self.files.push(FileRecord { path: path.clone(), content });
                proof {
                    assert(self.files.deep_view().drop_last() =~= prev);
                    assert(self@ =~~= apply_action_spec(old(self)@, action@));
                }
            },
            ServerAction::FinishFile { .. } => {
            },
            ServerAction::Ignore => {
            },
            ServerAction::ReportAnomaly => {
            },
            ServerAction::CloseConnection => {
            },
        }
    }
}

/// The acknowledgment one message earns: the digest of the bytes at the
/// open path when a live session closes a file, and nothing otherwise.
pub open spec fn step_ack(fs: FsView, s: HandlerView, m: PacketView) -> Option<PacketView> {
    if !s.done && m is EndFile && s.open_path is Some {
        let p = s.open_path.unwrap();
        Some(
            PacketView::EndFileAck {
                checksum: encode_utf8(
                    sha1_hex_of(
                        if fs.files.dom().contains(p) {
                            fs.files[p]
                        } else {
                            Seq::empty()
                        },
                    ),
                ),
            },
        )
    } else {
        None
    }
}

/// One connection's whole server: its state machine and the model of the
/// filesystem it writes.
pub struct ModelServer {
    pub handler: ServerHandler,
    pub fs: ModelFs,
}

impl ModelServer {
    /// A server for a freshly accepted connection over an untouched
    /// filesystem model.
    pub fn new() -> (r: ModelServer)
        ensures
            r.handler@ == (HandlerView { open_path: None, done: false }),
            r.fs@ == (FsView { dirs: Set::empty(), files: Map::empty() }),
    {
        ModelServer { handler: ServerHandler::new(), fs: ModelFs::new() }
    }

    /// Consumes one decoded message: steps the state machine, applies its
    /// filesystem effect to the model, and hands back the acknowledgment to
    /// send, exactly as `next_state`, `machine_fs` and `step_ack` say.
    pub fn process(&mut self, msg: Packet) -> (ack: Option<Packet>)
        ensures
            final(self).handler@ == next_state(old(self).handler@, msg@),
            final(self).fs@ == machine_fs(old(self).fs@, old(self).handler@, msg@),
            match ack {
                Some(pkt) => step_ack(old(self).fs@, old(self).handler@, msg@) == Some(pkt@),
                None => step_ack(old(self).fs@, old(self).handler@, msg@) is None,
            },
    {
        let action = self.handler.step(msg);
        let ack = match &action {
            ServerAction::FinishFile { path } => {
                let content = match self.fs.lookup(path) {
                    Some(c) => c,
                    None => Vec::new(),
                };
                Some(Packet::EndFileAck { checksum: digest_bytes(&content) })
            },
            _ => None,
        };
        self.fs.apply(&action);
        ack
    }
}


/// The connection state after a whole message sequence.
pub open spec fn run_handler(s: HandlerView, msgs: Seq<PacketView>) -> HandlerView
    decreases msgs.len(),
{
    if msgs.len() == 0 {
        s
    } else {
        run_handler(next_state(s, msgs[0]), msgs.drop_first())
    }
}

/// The filesystem after a whole message sequence arrives at a connection in
/// state `s`.
pub open spec fn run_fs(fs: FsView, s: HandlerView, msgs: Seq<PacketView>) -> FsView
    decreases msgs.len(),
{
    if msgs.len() == 0 {
        fs
    } else {
        run_fs(machine_fs(fs, s, msgs[0]), next_state(s, msgs[0]), msgs.drop_first())
    }
}

/// Running two message batches in turn is running their concatenation.
pub proof fn lemma_run_append(fs: FsView, s: HandlerView, a: Seq<PacketView>, b: Seq<PacketView>)
    ensures
        run_handler(s, a + b) == run_handler(run_handler(s, a), b),
        run_fs(fs, s, a + b) == run_fs(run_fs(fs, s, a), run_handler(s, a), b),
    decreases a.len(),
{
    if a.len() == 0 {
        assert(a + b =~= b);
    } else {
        assert((a + b)[0] == a[0]);
        assert((a + b).drop_first() =~= a.drop_first() + b);
        lemma_run_append(machine_fs(fs, s, a[0]), next_state(s, a[0]), a.drop_first(), b);
    }
}

/// Running a single message is stepping once.
pub proof fn lemma_run_one(fs: FsView, s: HandlerView, m: PacketView)
    ensures
        run_handler(s, seq![m]) == next_state(s, m),
        run_fs(fs, s, seq![m]) == machine_fs(fs, s, m),
{
    reveal_with_fuel(run_handler, 2);
    reveal_with_fuel(run_fs, 2);
    assert(seq![m].drop_first() =~= Seq::<PacketView>::empty());
    assert(seq![m][0] == m);
}

/// Directory idempotence: announcing the same directory twice — within one
/// session or from two overlapping ones — leaves exactly the state and
/// filesystem that one announcement leaves, and no error arises.
pub proof fn lemma_make_dir_idempotent(fs: FsView, s: HandlerView, path: Seq<char>)
    ensures
        machine_fs(
            machine_fs(fs, s, PacketView::MakeDir { relative_path: path }),
            next_state(s, PacketView::MakeDir { relative_path: path }),
            PacketView::MakeDir { relative_path: path },
        ) == machine_fs(fs, s, PacketView::MakeDir { relative_path: path }),
        next_state(
            next_state(s, PacketView::MakeDir { relative_path: path }),
            PacketView::MakeDir { relative_path: path },
        ) == next_state(s, PacketView::MakeDir { relative_path: path }),
{
    let m = PacketView::MakeDir { relative_path: path };
    if !s.done {
        assert(fs.dirs.insert(path).insert(path) =~= fs.dirs.insert(path));
        assert(machine_fs(machine_fs(fs, s, m), next_state(s, m), m) =~~= machine_fs(fs, s, m));
    }
}

/// A terminated connection is inert: no later message changes its state or
/// its filesystem, and none is acknowledged.
pub proof fn lemma_terminated_inert(fs: FsView, s: HandlerView, msgs: Seq<PacketView>)
    requires
        s.done,
    ensures
        run_handler(s, msgs) == s,
        run_fs(fs, s, msgs) == fs,
        forall|m: PacketView| step_ack(fs, s, m) is None,
    decreases msgs.len(),
{
    if msgs.len() == 0 {
    } else {
        assert(next_state(s, msgs[0]) == s);
        assert(machine_fs(fs, s, msgs[0]) == fs);
        lemma_terminated_inert(fs, s, msgs.drop_first());
    }
}

/// Session termination: the session-ending message terminates the
/// connection, whatever its state, and from then on nothing is read,
/// written, or acknowledged.
pub proof fn lemma_session_termination(fs: FsView, s: HandlerView, later: Seq<PacketView>)
    ensures
        next_state(s, PacketView::EndSession).done,
        run_handler(next_state(s, PacketView::EndSession), later) == next_state(
            s,
            PacketView::EndSession,
        ),
        run_fs(fs, next_state(s, PacketView::EndSession), later) == fs,
        forall|m: PacketView| step_ack(fs, next_state(s, PacketView::EndSession), m) is None,
{
    lemma_terminated_inert(fs, next_state(s, PacketView::EndSession), later);
}

/// The path a message asks the server to create or open, if any.
pub open spec fn msg_path(m: PacketView) -> Option<Seq<char>> {
    match m {
        PacketView::MakeDir { relative_path } => Some(relative_path),
        PacketView::BeginFile { relative_path, .. } => Some(relative_path),
        _ => None,
    }
}

/// Isolation: a session whose messages never name a path, and which has no
/// file open there, leaves that path's file and directory entries exactly
/// as they were. Two concurrent sessions over disjoint subtrees therefore
/// cannot corrupt each other's files.
pub proof fn lemma_session_isolation(
    fs: FsView,
    s: HandlerView,
    msgs: Seq<PacketView>,
    p: Seq<char>,
)
    requires
        forall|i: int| 0 <= i < msgs.len() ==> msg_path(#[trigger] msgs[i]) != Some(p),
        s.open_path != Some(p),
    ensures
        run_fs(fs, s, msgs).files.dom().contains(p) == fs.files.dom().contains(p),
        fs.files.dom().contains(p) ==> run_fs(fs, s, msgs).files[p] == fs.files[p],
        run_fs(fs, s, msgs).dirs.contains(p) == fs.dirs.contains(p),
        run_handler(s, msgs).open_path != Some(p),
    decreases msgs.len(),
{
    if msgs.len() == 0 {
    } else {
        let m = msgs[0];
        assert(msg_path(m) != Some(p));
        let fs1 = machine_fs(fs, s, m);
        let s1 = next_state(s, m);
        assert(s1.open_path != Some(p));
        assert(fs1.files.dom().contains(p) == fs.files.dom().contains(p));
        assert(fs.files.dom().contains(p) ==> fs1.files[p] == fs.files[p]);
        assert(fs1.dirs.contains(p) == fs.dirs.contains(p));
        assert(forall|i: int|
            0 <= i < msgs.drop_first().len() ==> msg_path(#[trigger] msgs.drop_first()[i])
                != Some(p));
        lemma_session_isolation(fs1, s1, msgs.drop_first(), p);
    }
}

} // verus!

