//! The command-routing state machine.
//!
//! The router owns two correlated maps: the set of live client sessions
//! (the session registry) and the map from remote connection ids to the
//! session that owns each connection. Commands are dispatched against this
//! state; the asynchronous outcome of each remote-engine call is applied
//! through the `apply_*` functions, which decide the response and the
//! session it is routed to. A response never targets a session other than
//! the owner of the connection it concerns.

use crate::types::{
    ConnectMode, InternalServicePayload, InternalServiceResponse, SessionSecuritySettings,
    TransferType, UdpMode, UserIdentifier,
};
use vstd::prelude::*;

verus! {

/// One established remote connection, owned by a client session.
#[derive(Debug, Clone, Copy, PartialEq, Eq)]
pub struct RemoteConnection {
    /// The id the remote engine assigned to the connection.
    pub cid: u64,
    /// The session that requested the connection and receives its traffic.
    pub owner: u128,
    /// The security level the next outbound message is sent under.
    pub security_level: u8,
}

/// The asynchronous call the caller must make against the remote engine
/// after a command was dispatched; its outcome is fed back through the
/// matching `apply_*` function.
#[derive(Debug, Clone, PartialEq)]
pub enum EngineAction {
    Connect {
        uuid: u128,
        username: String,
        password: Vec<u8>,
        connect_mode: ConnectMode,
        udp_mode: UdpMode,
        keep_alive_timeout_millis: Option<u64>,
        session_security_settings: SessionSecuritySettings,
    },
    Register {
        uuid: u128,
        server_addr: String,
        full_name: String,
        username: String,
        proposed_password: Vec<u8>,
        default_security_settings: SessionSecuritySettings,
    },
    SendMessage {
        cid: u64,
        message: Vec<u8>,
        security_level: u8,
    },
    Disconnect {
        uuid: u128,
        cid: u64,
    },
    SendFile {
        uuid: u128,
        cid: u64,
        source: String,
        chunk_size: u64,
        transfer_type: TransferType,
    },
    DownloadFile {
        uuid: u128,
        cid: u64,
        virtual_path: String,
        transfer_security_level: u8,
        delete_on_pull: bool,
    },
    StartGroup {
        uuid: u128,
        cid: u64,
        initial_users_to_invite: Option<Vec<UserIdentifier>>,
    },
}

/// The diagnostic for a lookup of a connection id nobody established.
pub open spec fn spec_not_found() -> Seq<char> {
    "connection not found"@
}

/// `r` is `MessageSendError` for `cid` carrying the text `msg`.
pub open spec fn resp_message_send_error(r: InternalServiceResponse, cid: u64, msg: Seq<char>) -> bool {
    match r {
        InternalServiceResponse::MessageSendError { cid: c, message } => c == cid && message@ == msg,
        _ => false,
    }
}

/// `r` is `DisconnectFailure` for `cid` carrying the text `msg`.
pub open spec fn resp_disconnect_failure(r: InternalServiceResponse, cid: u64, msg: Seq<char>) -> bool {
    match r {
        InternalServiceResponse::DisconnectFailure { cid: c, message } => c == cid && message@ == msg,
        _ => false,
    }
}

/// `r` is `SendFileFailure` for `cid` carrying the text `msg`.
pub open spec fn resp_send_file_failure(r: InternalServiceResponse, cid: u64, msg: Seq<char>) -> bool {
    match r {
        InternalServiceResponse::SendFileFailure { cid: c, message } => c == cid && message@ == msg,
        _ => false,
    }
}

/// `r` is `ConnectionFailure` carrying the text `msg`.
pub open spec fn resp_connection_failure(r: InternalServiceResponse, msg: Seq<char>) -> bool {
    match r {
        InternalServiceResponse::ConnectionFailure { message } => message@ == msg,
        _ => false,
    }
}

/// `r` is `RegisterFailure` carrying the text `msg`.
pub open spec fn resp_register_failure(r: InternalServiceResponse, msg: Seq<char>) -> bool {
    match r {
        InternalServiceResponse::RegisterFailure { message } => message@ == msg,
        _ => false,
    }
}

/// The first connection in `s` with id `cid`, if any.
pub open spec fn spec_find(s: Seq<RemoteConnection>, cid: u64) -> Option<RemoteConnection>
    decreases s.len(),
{
    if s.len() == 0 {
        None
    } else if s[0].cid == cid {
        Some(s[0])
    } else {
        spec_find(s.subrange(1, s.len() as int), cid)
    }
}

/// No two connections share an id.
pub open spec fn nodup_cids(s: Seq<RemoteConnection>) -> bool {
    forall|i: int, j: int| 0 <= i < j < s.len() ==> s[i].cid != s[j].cid
}

/// `spec_find` ignores a prefix in which no entry has id `cid`.
proof fn lemma_find_skip(s: Seq<RemoteConnection>, cid: u64, i: int)
    requires
        0 <= i <= s.len(),
        forall|j: int| 0 <= j < i ==> s[j].cid != cid,
    ensures
        spec_find(s, cid) == spec_find(s.subrange(i, s.len() as int), cid),
    decreases i,
{
    if i > 0 {
        let t = s.subrange(1, s.len() as int);
        assert(forall|j: int| 0 <= j < i - 1 ==> t[j].cid != cid);
        lemma_find_skip(t, cid, i - 1);
        assert(t.subrange(i - 1, t.len() as int) =~= s.subrange(i, s.len() as int));
    } else {
        assert(s.subrange(0, s.len() as int) =~= s);
    }
}

/// A found connection is a member with the id sought; a miss means no
/// member has the id.
pub proof fn lemma_find_characterizes(s: Seq<RemoteConnection>, cid: u64)
    ensures
        match spec_find(s, cid) {
            Some(c) => s.contains(c) && c.cid == cid,
            None => forall|i: int| 0 <= i < s.len() ==> s[i].cid != cid,
        },
    decreases s.len(),
{
    if s.len() > 0 {
        if s[0].cid == cid {
        } else {
            let t = s.subrange(1, s.len() as int);
            lemma_find_characterizes(t, cid);
            match spec_find(t, cid) {
                Some(c) => {
                    let k = choose|k: int| 0 <= k < t.len() && t[k] == c;
                    assert(s[k + 1] == c);
                },
                None => {
                    assert forall|i: int| 0 <= i < s.len() implies s[i].cid != cid by {
                        if i > 0 {
                            assert(t[i - 1] == s[i]);
                        }
                    }
                },
            }
        }
    }
}

/// Under unique ids, any member is what `spec_find` returns for its id.
pub proof fn lemma_find_of_member(s: Seq<RemoteConnection>, c: RemoteConnection)
    requires
        nodup_cids(s),
        s.contains(c),
    ensures
        spec_find(s, c.cid) == Some(c),
    decreases s.len(),
{
    let k = choose|k: int| 0 <= k < s.len() && s[k] == c;
    if k == 0 {
    } else {
        assert(s[0].cid != s[k].cid);
        let t = s.subrange(1, s.len() as int);
        assert(t[k - 1] == c);
        assert(t.contains(c));
        lemma_find_of_member(t, c);
    }
}

/// Taking index `i` out keeps ids unique, erases `s[i]`'s id from the map
/// view, and leaves every other id's entry alone.
proof fn lemma_find_after_remove(s: Seq<RemoteConnection>, i: int)
    requires
        nodup_cids(s),
        0 <= i < s.len(),
    ensures
        nodup_cids(s.remove(i)),
        spec_find(s.remove(i), s[i].cid) is None,
        forall|c: u64| c != s[i].cid ==> spec_find(s.remove(i), c) == spec_find(s, c),
        forall|k: int|
            0 <= k < s.remove(i).len() ==> s.remove(i)[k] == s[k] || s.remove(i)[k] == s[k + 1],
{
    let t = s.remove(i);
    assert(t =~= s.subrange(0, i) + s.subrange(i + 1, s.len() as int));
    assert forall|k: int| 0 <= k < t.len() implies t[k] == s[k] || t[k] == s[k + 1] by {
        if k < i {
            assert(t[k] == s[k]);
        } else {
            assert(t[k] == s[k + 1]);
        }
    }
    assert forall|k: int| 0 <= k < t.len() implies (#[trigger] t[k]).cid != s[i].cid by {
        if k < i {
            assert(t[k] == s[k]);
        } else {
            assert(t[k] == s[k + 1]);
        }
    }
    assert forall|a: int, b: int| 0 <= a < b < t.len() implies t[a].cid != t[b].cid by {
        if a < i {
            assert(t[a] == s[a]);
        } else {
            assert(t[a] == s[a + 1]);
        }
        if b < i {
            assert(t[b] == s[b]);
        } else {
            assert(t[b] == s[b + 1]);
        }
    }
    lemma_find_characterizes(t, s[i].cid);
    if let Some(y) = spec_find(t, s[i].cid) {
        let k = choose|k: int| 0 <= k < t.len() && t[k] == y;
        assert(t[k].cid != s[i].cid);
    }
    assert forall|c: u64| c != s[i].cid implies spec_find(t, c) == spec_find(s, c) by {
        lemma_find_characterizes(t, c);
        lemma_find_characterizes(s, c);
        match spec_find(s, c) {
            Some(y) => {
                let ky = choose|k: int| 0 <= k < s.len() && s[k] == y;
                assert(ky != i);
                lemma_seq_remove_membership(s, i, y);
                assert(t.contains(y));
                lemma_find_of_member(t, y);
            },
            None => {
                if let Some(y) = spec_find(t, c) {
                    lemma_seq_remove_membership(s, i, y);
                    let k = choose|k: int| 0 <= k < s.len() && k != i && s[k] == y;
                    assert(s[k].cid == c);
                }
            },
        }
    }
}

/// Appending a connection with a fresh id keeps ids unique, maps the new
/// id to it, and leaves every other id's entry alone.
proof fn lemma_find_after_push(t: Seq<RemoteConnection>, x: RemoteConnection)
    requires
        nodup_cids(t),
        forall|k: int| 0 <= k < t.len() ==> (#[trigger] t[k]).cid != x.cid,
    ensures
        nodup_cids(t.push(x)),
        spec_find(t.push(x), x.cid) == Some(x),
        forall|c: u64| c != x.cid ==> spec_find(t.push(x), c) == spec_find(t, c),
{
    let u = t.push(x);
    assert forall|a: int, b: int| 0 <= a < b < u.len() implies u[a].cid != u[b].cid by {
        if b < t.len() {
        } else {
            assert(u[b] == x && u[a] == t[a]);
        }
    }
    assert(u[t.len() as int] == x);
    assert(u.contains(x));
    lemma_find_of_member(u, x);
    assert forall|c: u64| c != x.cid implies spec_find(u, c) == spec_find(t, c) by {
        lemma_find_characterizes(u, c);
        lemma_find_characterizes(t, c);
        match spec_find(t, c) {
            Some(y) => {
                let k = choose|k: int| 0 <= k < t.len() && t[k] == y;
                assert(u[k] == y);
                assert(u.contains(y));
                lemma_find_of_member(u, y);
            },
            None => {
                if let Some(y) = spec_find(u, c) {
                    let k = choose|k: int| 0 <= k < u.len() && u[k] == y;
                    if k < t.len() {
                        assert(t[k].cid == c);
                    } else {
                        assert(y == x);
                    }
                }
            },
        }
    }
}

/// Membership in a sequence with one index taken out.
proof fn lemma_seq_remove_membership<T>(s: Seq<T>, i: int, x: T)
    requires
        0 <= i < s.len(),
    ensures
        s.remove(i).contains(x) <==> exists|k: int| 0 <= k < s.len() && k != i && s[k] == x,
{
    assert(s.remove(i) =~= s.subrange(0, i) + s.subrange(i + 1, s.len() as int));
    let t = s.remove(i);
    if t.contains(x) {
        let k = choose|k: int| 0 <= k < t.len() && t[k] == x;
        if k < i {
            assert(s[k] == x);
        } else {
            assert(s[k + 1] == x);
        }
    }
    if exists|k: int| 0 <= k < s.len() && k != i && s[k] == x {
        let k = choose|k: int| 0 <= k < s.len() && k != i && s[k] == x;
        if k < i {
            assert(t[k] == x);
        } else {
            assert(t[k - 1] == x);
        }
    }
}

/// Each kept connection stems from the first `j` entries of `oldc` via
/// the index recorded for it, and is not owned by `id`.
spec fn kept_sourced(
    kept: Seq<RemoteConnection>,
    src: Seq<int>,
    oldc: Seq<RemoteConnection>,
    j: int,
    id: u128,
) -> bool {
    &&& kept.len() == src.len()
    &&& forall|k: int|
        0 <= k < kept.len() ==> 0 <= #[trigger] src[k] < j && oldc[src[k]] == kept[k]
            && oldc[src[k]].owner != id
}

/// Each removed id stems from a first-`j` entry of `oldc` owned by `id`,
/// via the index recorded for it.
spec fn removed_sourced(
    removed: Seq<u64>,
    rsrc: Seq<int>,
    oldc: Seq<RemoteConnection>,
    j: int,
    id: u128,
) -> bool {
    &&& removed.len() == rsrc.len()
    &&& forall|k: int|
        0 <= k < removed.len() ==> 0 <= #[trigger] rsrc[k] < j && oldc[rsrc[k]].owner == id
            && oldc[rsrc[k]].cid == removed[k]
}

/// Every one of the first `j` entries of `oldc` not owned by `id` was kept.
spec fn covers_kept(kept: Seq<RemoteConnection>, oldc: Seq<RemoteConnection>, j: int, id: u128) -> bool {
    forall|m: int| 0 <= m < j && (#[trigger] oldc[m]).owner != id ==> kept.contains(oldc[m])
}

/// Every first-`j` entry of `oldc` owned by `id` had its id removed.
spec fn covers_removed(removed: Seq<u64>, oldc: Seq<RemoteConnection>, j: int, id: u128) -> bool {
    forall|m: int| 0 <= m < j && (#[trigger] oldc[m]).owner == id ==> removed.contains(oldc[m].cid)
}

/// The router's state: which sessions are live, and which remote
/// connections exist, each owned by a live session.
pub struct CommandRouter {
    sessions: Vec<u128>,
    conns: Vec<RemoteConnection>,
}

impl CommandRouter {
    /// Whether `id` is a live session.
    pub closed spec fn has_session(self, id: u128) -> bool {
        self.sessions@.contains(id)
    }

    /// The connection registered under `cid`, if any.
    pub closed spec fn spec_find_conn(self, cid: u64) -> Option<RemoteConnection> {
        spec_find(self.conns@, cid)
    }

    /// Well-formed: no duplicate session ids, no duplicate connection ids,
    /// and every connection's owner is a live session.
    pub closed spec fn wf(self) -> bool {
        &&& (forall|i: int, j: int|
            0 <= i < j < self.sessions@.len() ==> self.sessions@[i] != self.sessions@[j])
        &&& nodup_cids(self.conns@)
        &&& (forall|i: int|
            0 <= i < self.conns@.len() ==> self.sessions@.contains(#[trigger] self.conns@[i].owner))
    }

    /// Every connection is owned by a live session.
    pub proof fn lemma_owner_is_live(self, cid: u64)
        requires
            self.wf(),
        ensures
            self.spec_find_conn(cid) matches Some(c) ==> self.has_session(c.owner),
    {
        lemma_find_characterizes(self.conns@, cid);
        if let Some(c) = self.spec_find_conn(cid) {
            let k = choose|k: int| 0 <= k < self.conns@.len() && self.conns@[k] == c;
            assert(self.sessions@.contains(self.conns@[k].owner));
        }
    }

    /// A router with no sessions and no connections.
    pub fn new() -> (r: CommandRouter)
        ensures
            r.wf(),
            forall|id: u128| !r.has_session(id),
            forall|cid: u64| r.spec_find_conn(cid) is None,
    {
        CommandRouter { sessions: Vec::new(), conns: Vec::new() }
    }

    /// Whether `id` is currently registered; routing to an unregistered
    /// session is a no-op for the caller.
    pub fn session_live(&self, id: u128) -> (r: bool)
        ensures
            r == self.has_session(id),
    {
        let mut i: usize = 0;
        while i < self.sessions.len()
            invariant
                i <= self.sessions@.len(),
                forall|j: int| 0 <= j < i ==> self.sessions@[j] != id,
            decreases self.sessions@.len() - i,
        {
            if self.sessions[i] == id {
                return true;
            }
            i = i + 1;
        }
        false
    }

    /// The index of the connection registered under `cid`, if any.
    fn find_conn_index(&self, cid: u64) -> (r: Option<usize>)
        ensures
            match r {
                Some(i) => i < self.conns@.len() && self.conns@[i as int].cid == cid
                    && self.spec_find_conn(cid) == Some(self.conns@[i as int]),
                None => self.spec_find_conn(cid) is None,
            },
    {
        let mut i: usize = 0;
        while i < self.conns.len()
            invariant
                i <= self.conns@.len(),
                forall|j: int| 0 <= j < i ==> self.conns@[j].cid != cid,
            decreases self.conns@.len() - i,
        {
            if self.conns[i].cid == cid {
                proof {
                    lemma_find_skip(self.conns@, cid, i as int);
                    let t = self.conns@.subrange(i as int, self.conns@.len() as int);
                    assert(t[0] == self.conns@[i as int]);
                }
                return Some(i);
            }
            i = i + 1;
        }
        proof {
            lemma_find_skip(self.conns@, cid, self.conns@.len() as int);
        }
        None
    }

    /// Registers a freshly accepted socket's session id and produces the
    /// greeting that must be the first frame on that socket. A session id
    /// already live is refused and the state is unchanged.
    pub fn accept_session(&mut self, id: u128) -> (r: Option<InternalServiceResponse>)
        requires
            old(self).wf(),
        ensures
            final(self).wf(),
            old(self).has_session(id) ==> r is None && *final(self) == *old(self),
            !old(self).has_session(id) ==> {
                &&& r == Some(InternalServiceResponse::ServiceConnectionAccepted { id })
                &&& final(self).has_session(id)
                &&& forall|x: u128| x != id ==> final(self).has_session(x) == old(self).has_session(x)
                &&& forall|c: u64| final(self).spec_find_conn(c) == old(self).spec_find_conn(c)
            },
    {
        if self.session_live(id) {
            return None;
        }
        self.sessions.push(id);
        proof {
            assert forall|x: u128| x != id implies self.has_session(x) == old(self).has_session(
                x,
            ) by {
                if old(self).sessions@.contains(x) {
                    let k = choose|k: int|
                        0 <= k < old(self).sessions@.len() && old(self).sessions@[k] == x;
                    assert(self.sessions@[k] == x);
                }
                if self.sessions@.contains(x) {
                    let k = choose|k: int| 0 <= k < self.sessions@.len() && self.sessions@[k] == x;
                    assert(k < old(self).sessions@.len());
                    assert(old(self).sessions@[k] == x);
                }
            }
            assert(self.sessions@[self.sessions@.len() - 1] == id);
            assert forall|i: int| 0 <= i < self.conns@.len() implies self.sessions@.contains(
                #[trigger] self.conns@[i].owner,
            ) by {
                let k = choose|k: int|
                    0 <= k < old(self).sessions@.len() && old(self).sessions@[k]
                        == old(self).conns@[i].owner;
                assert(self.sessions@[k] == self.conns@[i].owner);
            }
        }
        Some(InternalServiceResponse::ServiceConnectionAccepted { id })
    }

    /// The index of `id` among the live sessions, if any.
    fn find_session_index(&self, id: u128) -> (r: Option<usize>)
        ensures
            match r {
                Some(i) => i < self.sessions@.len() && self.sessions@[i as int] == id,
                None => !self.has_session(id),
            },
    {
        let mut i: usize = 0;
        while i < self.sessions.len()
            invariant
                i <= self.sessions@.len(),
                forall|j: int| 0 <= j < i ==> self.sessions@[j] != id,
            decreases self.sessions@.len() - i,
        {
            if self.sessions[i] == id {
                return Some(i);
            }
            i = i + 1;
        }
        None
    }

    /// Tears a session down: the id leaves the registry, every remote
    /// connection it owned leaves the connection map, and the ids of those
    /// connections are handed back so the caller can close them at the
    /// remote engine.
    pub fn close_session(&mut self, id: u128) -> (removed: Vec<u64>)
        requires
            old(self).wf(),
        ensures
            final(self).wf(),
            !final(self).has_session(id),
            forall|x: u128| x != id ==> final(self).has_session(x) == old(self).has_session(x),
            forall|c: u64|
                final(self).spec_find_conn(c) == (match old(self).spec_find_conn(c) {
                    Some(conn) => if conn.owner == id {
                        None
                    } else {
                        Some(conn)
                    },
                    None => None::<RemoteConnection>,
                }),
            forall|c: u64|
                removed@.contains(c) <==> (old(self).spec_find_conn(c) matches Some(conn)
                    && conn.owner == id),
            forall|i: int, j: int| 0 <= i < j < removed@.len() ==> removed@[i] != removed@[j],
    {
        match self.find_session_index(id) {
            Some(i) => {
                self.sessions.remove(i);
                proof {
                    let olds = old(self).sessions@;
                    assert forall|x: u128| x != id implies self.sessions@.contains(x) == olds.contains(
                        x,
                    ) by {
                        lemma_seq_remove_membership(olds, i as int, x);
                        if olds.contains(x) {
                            let k = choose|k: int| 0 <= k < olds.len() && olds[k] == x;
                            assert(k != i && olds[k] == x);
                        }
                    }
                    assert(!self.sessions@.contains(id)) by {
                        lemma_seq_remove_membership(olds, i as int, id);
                        if self.sessions@.contains(id) {
                            let k = choose|k: int|
                                0 <= k < olds.len() && k != i && olds[k] == id;
                            assert(olds[k] == olds[i as int]);
                        }
                    }
                    assert forall|a: int, b: int|
                        0 <= a < b < self.sessions@.len() implies self.sessions@[a]
                        != self.sessions@[b] by {
                        assert(self.sessions@ =~= olds.subrange(0, i as int) + olds.subrange(
                            i + 1,
                            olds.len() as int,
                        ));
                    }
                }
            },
            None => {},
        }
        let ghost oldc = self.conns@;
        let mut kept: Vec<RemoteConnection> = Vec::new();
        let mut removed: Vec<u64> = Vec::new();
        let ghost mut src: Seq<int> = Seq::empty();
        let ghost mut rsrc: Seq<int> = Seq::empty();
        let n = self.conns.len();
        let mut j: usize = 0;
        while j < n
            invariant
                j <= n,
                n == oldc.len(),
                self.conns@ == oldc,
                nodup_cids(oldc),
                nodup_cids(kept@),
                kept_sourced(kept@, src, oldc, j as int, id),
                covers_kept(kept@, oldc, j as int, id),
                removed_sourced(removed@, rsrc, oldc, j as int, id),
                covers_removed(removed@, oldc, j as int, id),
                forall|k1: int, k2: int| 0 <= k1 < k2 < rsrc.len() ==> #[trigger] rsrc[k1] < #[trigger] rsrc[k2],
            decreases n - j,
        {
            let c = self.conns[j];
            let ghost kept_pre = kept@;
            let ghost removed_pre = removed@;
            if c.owner == id {
                removed.push(c.cid);
                proof {
                    rsrc = rsrc.push(j as int);
                    assert(removed_sourced(removed@, rsrc, oldc, j + 1, id));
                    assert forall|m: int|
                        0 <= m < j + 1 && (#[trigger] oldc[m]).owner == id implies removed@.contains(
                        oldc[m].cid,
                    ) by {
                        if m < j {
                            assert(removed_pre.contains(oldc[m].cid));
                            let k = choose|k: int|
                                0 <= k < removed_pre.len() && removed_pre[k] == oldc[m].cid;
                            assert(removed@[k] == oldc[m].cid);
                        } else {
                            assert(removed@.last() == oldc[m].cid);
                        }
                    }
                    assert(covers_removed(removed@, oldc, j + 1, id));
                    assert(kept_sourced(kept@, src, oldc, j + 1, id));
                    assert(covers_kept(kept@, oldc, j + 1, id));
                }
            } else {
                proof {
                    assert forall|k: int|
                        0 <= k < kept_pre.len() implies (#[trigger] kept_pre[k]).cid != c.cid by {
                        let m = src[k];
                        if oldc[m].cid == c.cid {
                            assert(oldc[m].cid == oldc[j as int].cid);
                        }
                    }
                }
                kept.push(c);
                proof {
                    src = src.push(j as int);
                    assert(kept_sourced(kept@, src, oldc, j + 1, id));
                    assert forall|m: int|
                        0 <= m < j + 1 && (#[trigger] oldc[m]).owner != id implies kept@.contains(
                        oldc[m],
                    ) by {
                        if m < j {
                            assert(kept_pre.contains(oldc[m]));
                            let k = choose|k: int|
                                0 <= k < kept_pre.len() && kept_pre[k] == oldc[m];
                            assert(kept@[k] == oldc[m]);
                        } else {
                            assert(kept@.last() == oldc[m]);
                        }
                    }
                    assert(covers_kept(kept@, oldc, j + 1, id));
                    assert forall|a: int, b: int|
                        0 <= a < b < kept@.len() implies kept@[a].cid != kept@[b].cid by {
                        if b < kept_pre.len() {
                            assert(kept_pre[a].cid != kept_pre[b].cid);
                        } else {
                            assert(kept@[b] == c && kept@[a] == kept_pre[a]);
                        }
                    }
                    assert(removed_sourced(removed@, rsrc, oldc, j + 1, id));
                    assert(covers_removed(removed@, oldc, j + 1, id));
                }
            }
            j = j + 1;
        }
        self.conns = kept;
        proof {
            assert forall|c: u64|
                self.spec_find_conn(c) == (match spec_find(oldc, c) {
                    Some(conn) => if conn.owner == id {
                        None
                    } else {
                        Some(conn)
                    },
                    None => None::<RemoteConnection>,
                }) by {
                lemma_find_characterizes(oldc, c);
                lemma_find_characterizes(self.conns@, c);
                match spec_find(oldc, c) {
                    Some(conn) => {
                        let ko = choose|k: int| 0 <= k < oldc.len() && oldc[k] == conn;
                        if conn.owner == id {
                            if let Some(y) = spec_find(self.conns@, c) {
                                let k = choose|k: int|
                                    0 <= k < self.conns@.len() && self.conns@[k] == y;
                                let m = src[k];
                                assert(oldc[m] == y && oldc[m].owner != id);
                                if m != ko {
                                    assert(oldc[m].cid == oldc[ko].cid);
                                }
                            }
                        } else {
                            assert(self.conns@.contains(conn));
                            lemma_find_of_member(self.conns@, conn);
                        }
                    },
                    None => {
                        if let Some(y) = spec_find(self.conns@, c) {
                            let k = choose|k: int|
                                0 <= k < self.conns@.len() && self.conns@[k] == y;
                            let m = src[k];
                            assert(oldc[m] == y);
                            assert(oldc[m].cid == c);
                        }
                    },
                }
            }
            assert forall|c: u64|
                removed@.contains(c) <==> (spec_find(oldc, c) matches Some(conn) && conn.owner
                    == id) by {
                lemma_find_characterizes(oldc, c);
                if removed@.contains(c) {
                    let k = choose|k: int| 0 <= k < removed@.len() && removed@[k] == c;
                    let m = rsrc[k];
                    assert(oldc[m].owner == id && oldc[m].cid == c);
                    lemma_find_of_member(oldc, oldc[m]);
                }
                if let Some(conn) = spec_find(oldc, c) {
                    if conn.owner == id {
                        let ko = choose|k: int| 0 <= k < oldc.len() && oldc[k] == conn;
                        assert(removed@.contains(oldc[ko].cid));
                    }
                }
            }
            assert forall|i: int|
                0 <= i < self.conns@.len() implies self.sessions@.contains(
                #[trigger] self.conns@[i].owner,
            ) by {
                let m = src[i];
                assert(oldc[m] == self.conns@[i] && oldc[m].owner != id);
                assert(old(self).sessions@.contains(oldc[m].owner));
            }
            assert forall|k1: int, k2: int|
                0 <= k1 < k2 < removed@.len() implies removed@[k1] != removed@[k2] by {
                let m1 = rsrc[k1];
                let m2 = rsrc[k2];
                assert(m1 < m2);
                assert(oldc[m1].cid == removed@[k1] && oldc[m2].cid == removed@[k2]);
            }
        }
        removed
    }


    /// Routes an inbound byte payload from the remote engine: byte-identical
    /// delivery to the session that owns the connection, and to no other.
    pub fn incoming_message(&self, cid: u64, message: Vec<u8>, peer_cid: u64) -> (r: Option<
        (u128, InternalServiceResponse),
    >)
        requires
            self.wf(),
        ensures
            match r {
                Some((target, resp)) => {
                    &&& self.spec_find_conn(cid) matches Some(conn) && conn.owner == target
                    &&& self.has_session(target)
                    &&& resp == (InternalServiceResponse::MessageReceived {
                        message,
                        cid,
                        peer_cid,
                    })
                },
                None => self.spec_find_conn(cid) is None,
            },
    {
        proof {
            self.lemma_owner_is_live(cid);
        }
        match self.find_conn_index(cid) {
            Some(i) => {
                let owner = self.conns[i].owner;
                Some((owner, InternalServiceResponse::MessageReceived { message, cid, peer_cid }))
            },
            None => None,
        }
    }

    /// Accepts a new socket: mints a random session id, registers it, and
    /// returns it with the greeting to send first. `None` only when the
    /// freshly minted id collided with a live session; the caller may then
    /// retry or refuse the socket.
    pub fn open_session(&mut self) -> (r: Option<(u128, InternalServiceResponse)>)
        requires
            old(self).wf(),
        ensures
            final(self).wf(),
            match r {
                Some((id, resp)) => {
                    &&& !old(self).has_session(id)
                    &&& final(self).has_session(id)
                    &&& resp == (InternalServiceResponse::ServiceConnectionAccepted { id })
                    &&& forall|x: u128|
                        x != id ==> final(self).has_session(x) == old(self).has_session(x)
                    &&& forall|c: u64| final(self).spec_find_conn(c) == old(self).spec_find_conn(c)
                },
                None => *final(self) == *old(self) && exists|x: u128|
                    old(self).has_session(x),
            },
    {
        let id = crate::session_id::mint_session_id();
        match self.accept_session(id) {
            Some(resp) => Some((id, resp)),
            None => {
                proof {
                    assert(old(self).has_session(id));
                }
                None
            },
        }
    }

    /// Dispatches one client command from the session `session_id` (the
    /// socket it arrived on, not the client-supplied field): the immediate
    /// response (if the command fails at lookup, the failure is reported to
    /// that session, never dropped) and the remote-engine call the caller
    /// must now perform.
    pub fn handle_command(&mut self, session_id: u128, cmd: InternalServicePayload) -> (r: (
        Option<(u128, InternalServiceResponse)>,
        Option<EngineAction>,
    ))
        requires
            old(self).wf(),
        ensures
            final(self).wf(),
            match cmd {
                InternalServicePayload::Connect {
                    uuid,
                    username,
                    password,
                    connect_mode,
                    udp_mode,
                    keep_alive_timeout_millis,
                    session_security_settings,
                } => {
                    &&& *final(self) == *old(self)
                    &&& r.0 is None
                    &&& r.1 == Some(EngineAction::Connect {
                        uuid: session_id,
                        username,
                        password,
                        connect_mode,
                        udp_mode,
                        keep_alive_timeout_millis,
                        session_security_settings,
                    })
                },
                InternalServicePayload::Register {
                    uuid,
                    server_addr,
                    full_name,
                    username,
                    proposed_password,
                    default_security_settings,
                } => {
                    &&& *final(self) == *old(self)
                    &&& r.0 is None
                    &&& r.1 == Some(EngineAction::Register {
                        uuid: session_id,
                        server_addr,
                        full_name,
                        username,
                        proposed_password,
                        default_security_settings,
                    })
                },
                InternalServicePayload::Message { uuid, message, cid, user_cid, security_level } => {
                    match old(self).spec_find_conn(cid) {
                        Some(conn) => {
                            &&& r.0 is None
                            &&& r.1 == Some(EngineAction::SendMessage {
                                cid,
                                message,
                                security_level,
                            })
                            &&& final(self).spec_find_conn(cid) == Some(RemoteConnection {
                                cid,
                                owner: conn.owner,
                                security_level,
                            })
                            &&& forall|c: u64|
                                c != cid ==> final(self).spec_find_conn(c) == old(
                                    self,
                                ).spec_find_conn(c)
                            &&& forall|x: u128|
                                final(self).has_session(x) == old(self).has_session(x)
                        },
                        None => {
                            &&& r.1 is None
                            &&& *final(self) == *old(self)
                            &&& r.0 matches Some((target, resp)) && target == session_id
                                && resp_message_send_error(resp, cid, spec_not_found())
                        },
                    }
                },
                InternalServicePayload::Disconnect { uuid, cid } => {
                    match old(self).spec_find_conn(cid) {
                        Some(conn) => {
                            &&& r.0 is None
                            &&& r.1 == Some(EngineAction::Disconnect { uuid: session_id, cid })
                            &&& final(self).spec_find_conn(cid) is None
                            &&& forall|c: u64|
                                c != cid ==> final(self).spec_find_conn(c) == old(
                                    self,
                                ).spec_find_conn(c)
                            &&& forall|x: u128|
                                final(self).has_session(x) == old(self).has_session(x)
                        },
                        None => {
                            &&& r.1 is None
                            &&& *final(self) == *old(self)
                            &&& r.0 matches Some((target, resp)) && target == session_id
                                && resp_disconnect_failure(resp, cid, spec_not_found())
                        },
                    }
                },
                InternalServicePayload::SendFile { uuid, source, cid, chunk_size, transfer_type } => {
                    &&& *final(self) == *old(self)
                    &&& match old(self).spec_find_conn(cid) {
                        Some(conn) => r.0 is None && r.1 == Some(EngineAction::SendFile {
                            uuid: session_id,
                            cid,
                            source,
                            chunk_size,
                            transfer_type,
                        }),
                        None => r.1 is None && (r.0 matches Some((target, resp)) && target == session_id
                            && resp_send_file_failure(resp, cid, spec_not_found())),
                    }
                },
                InternalServicePayload::DownloadFile {
                    virtual_path,
                    transfer_security_level,
                    delete_on_pull,
                    cid,
                    uuid,
                } => {
                    &&& *final(self) == *old(self)
                    &&& match old(self).spec_find_conn(cid) {
                        Some(conn) => r.0 is None && r.1 == Some(EngineAction::DownloadFile {
                            uuid: session_id,
                            cid,
                            virtual_path,
                            transfer_security_level,
                            delete_on_pull,
                        }),
                        None => r.1 is None && (r.0 matches Some((target, resp)) && target == session_id
                            && resp_send_file_failure(resp, cid, spec_not_found())),
                    }
                },
                InternalServicePayload::StartGroup { initial_users_to_invite, cid, uuid } => {
                    &&& *final(self) == *old(self)
                    &&& match old(self).spec_find_conn(cid) {
                        Some(conn) => r.0 is None && r.1 == Some(EngineAction::StartGroup {
                            uuid: session_id,
                            cid,
                            initial_users_to_invite,
                        }),
                        None => r.1 is None && (r.0 matches Some((target, resp)) && target == session_id
                            && resp_message_send_error(resp, cid, spec_not_found())),
                    }
                },
            },
    {
        match cmd {
            InternalServicePayload::Connect {
                uuid,
                username,
                password,
                connect_mode,
                udp_mode,
                keep_alive_timeout_millis,
                session_security_settings,
            } => (
                None,
                Some(EngineAction::Connect {
                    uuid: session_id,
                    username,
                    password,
                    connect_mode,
                    udp_mode,
                    keep_alive_timeout_millis,
                    session_security_settings,
                }),
            ),
            InternalServicePayload::Register {
                uuid,
                server_addr,
                full_name,
                username,
                proposed_password,
                default_security_settings,
            } => (
                None,
                Some(EngineAction::Register {
                    uuid: session_id,
                    server_addr,
                    full_name,
                    username,
                    proposed_password,
                    default_security_settings,
                }),
            ),
            InternalServicePayload::Message { uuid, message, cid, user_cid: _, security_level } => {
                match self.find_conn_index(cid) {
                    Some(i) => {
                        let ghost oldc = self.conns@;
                        let conn = self.conns.remove(i);
                        let updated = RemoteConnection { cid, owner: conn.owner, security_level };
                        proof {
                            lemma_find_after_remove(oldc, i as int);
                        }
                        self.conns.push(updated);
                        proof {
                            lemma_find_after_push(oldc.remove(i as int), updated);
                            assert forall|k: int|
                                0 <= k < self.conns@.len() implies old(self).sessions@.contains(
                                (#[trigger] self.conns@[k]).owner,
                            ) by {
                                let t = oldc.remove(i as int);
                                if k < t.len() {
                                    assert(self.conns@[k] == t[k]);
                                    assert(t[k] == oldc[k] || t[k] == oldc[k + 1]);
                                } else {
                                    assert(self.conns@[k] == updated);
                                    let ki = choose|m: int|
                                        0 <= m < oldc.len() && oldc[m] == conn;
                                    assert(oldc[ki].owner == conn.owner);
                                }
                            }
                        }
                        (None, Some(EngineAction::SendMessage { cid, message, security_level }))
                    },
                    None => (
                        Some((
                            session_id,
                            InternalServiceResponse::MessageSendError {
                                cid,
                                message: not_found_text(),
                            },
                        )),
                        None,
                    ),
                }
            },
            InternalServicePayload::Disconnect { uuid, cid } => {
                match self.find_conn_index(cid) {
                    Some(i) => {
                        let ghost oldc = self.conns@;
                        let conn = self.conns.remove(i);
                        proof {
                            lemma_find_after_remove(oldc, i as int);
                            assert forall|k: int|
                                0 <= k < self.conns@.len() implies old(self).sessions@.contains(
                                (#[trigger] self.conns@[k]).owner,
                            ) by {
                                let t = oldc.remove(i as int);
                                assert(self.conns@[k] == t[k]);
                                assert(t[k] == oldc[k] || t[k] == oldc[k + 1]);
                            }
                        }
                        (None, Some(EngineAction::Disconnect { uuid: session_id, cid }))
                    },
                    None => (
                        Some((
                            session_id,
                            InternalServiceResponse::DisconnectFailure {
                                cid,
                                message: not_found_text(),
                            },
                        )),
                        None,
                    ),
                }
            },
            InternalServicePayload::SendFile { uuid, source, cid, chunk_size, transfer_type } => {
                match self.find_conn_index(cid) {
                    Some(_) => (
                        None,
                        Some(EngineAction::SendFile {
                            uuid: session_id,
                            cid,
                            source,
                            chunk_size,
                            transfer_type,
                        }),
                    ),
                    None => (
                        Some((
                            session_id,
                            InternalServiceResponse::SendFileFailure {
                                cid,
                                message: not_found_text(),
                            },
                        )),
                        None,
                    ),
                }
            },
            InternalServicePayload::DownloadFile {
                virtual_path,
                transfer_security_level,
                delete_on_pull,
                cid,
                uuid,
            } => {
                match self.find_conn_index(cid) {
                    Some(_) => (
                        None,
                        Some(EngineAction::DownloadFile {
                            uuid: session_id,
                            cid,
                            virtual_path,
                            transfer_security_level,
                            delete_on_pull,
                        }),
                    ),
                    None => (
                        Some((
                            session_id,
                            InternalServiceResponse::SendFileFailure {
                                cid,
                                message: not_found_text(),
                            },
                        )),
                        None,
                    ),
                }
            },
            InternalServicePayload::StartGroup { initial_users_to_invite, cid, uuid } => {
                match self.find_conn_index(cid) {
                    Some(_) => (
                        None,
                        Some(EngineAction::StartGroup { uuid: session_id, cid, initial_users_to_invite }),
                    ),
                    None => (
                        Some((
                            session_id,
                            InternalServiceResponse::MessageSendError {
                                cid,
                                message: not_found_text(),
                            },
                        )),
                        None,
                    ),
                }
            },
        }
    }

    /// Applies the remote engine's answer to a `Connect` dispatch. On
    /// success the connection is recorded under its new id for the
    /// requesting session; the second result is true when the engine-side
    /// connection is stale (its session died, or its id collides) and the
    /// caller must close it again.
    pub fn apply_connect_outcome(&mut self, uuid: u128, outcome: Result<u64, String>) -> (r: (
        Option<(u128, InternalServiceResponse)>,
        bool,
    ))
        requires
            old(self).wf(),
        ensures
            final(self).wf(),
            match outcome {
                Err(msg) => {
                    &&& *final(self) == *old(self)
                    &&& !r.1
                    &&& r.0 matches Some((target, resp)) && target == uuid
                        && resp_connection_failure(resp, msg@)
                },
                Ok(cid) => {
                    if !old(self).has_session(uuid) {
                        &&& *final(self) == *old(self)
                        &&& r.0 is None
                        &&& r.1
                    } else if old(self).spec_find_conn(cid) is Some {
                        &&& *final(self) == *old(self)
                        &&& r.1
                        &&& r.0 matches Some((target, resp)) && target == uuid
                            && resp_connection_failure(resp, spec_duplicate_conn())
                    } else {
                        &&& !r.1
                        &&& r.0 == Some((
                            uuid,
                            InternalServiceResponse::ConnectSuccess { cid },
                        ))
                        &&& final(self).spec_find_conn(cid) == Some(RemoteConnection {
                            cid,
                            owner: uuid,
                            security_level: 0,
                        })
                        &&& forall|c: u64|
                            c != cid ==> final(self).spec_find_conn(c) == old(
                                self,
                            ).spec_find_conn(c)
                        &&& forall|x: u128|
                            final(self).has_session(x) == old(self).has_session(x)
                    }
                },
            },
    {
        match outcome {
            Err(message) => (
                Some((uuid, InternalServiceResponse::ConnectionFailure { message })),
                false,
            ),
            Ok(cid) => {
                if !self.session_live(uuid) {
                    (None, true)
                } else if self.find_conn_index(cid).is_some() {
                    (
                        Some((
                            uuid,
                            InternalServiceResponse::ConnectionFailure {
                                message: duplicate_conn_text(),
                            },
                        )),
                        true,
                    )
                } else {
                    let ghost oldc = self.conns@;
                    let fresh = RemoteConnection { cid, owner: uuid, security_level: 0 };
                    proof {
                        lemma_find_characterizes(oldc, cid);
                    }
                    self.conns.push(fresh);
                    proof {
                        lemma_find_after_push(oldc, fresh);
                        assert forall|k: int|
                            0 <= k < self.conns@.len() implies self.sessions@.contains(
                            (#[trigger] self.conns@[k]).owner,
                        ) by {
                            if k < oldc.len() {
                                assert(self.conns@[k] == oldc[k]);
                            } else {
                                assert(self.conns@[k] == fresh);
                            }
                        }
                    }
                    (Some((uuid, InternalServiceResponse::ConnectSuccess { cid })), false)
                }
            },
        }
    }

    /// Applies the outcome of enqueueing an outbound message: the result is
    /// reported to the session that owns the connection, or dropped when the
    /// connection is gone.
    pub fn apply_send_outcome(&self, cid: u64, outcome: Result<(), String>) -> (r: Option<
        (u128, InternalServiceResponse),
    >)
        requires
            self.wf(),
        ensures
            match self.spec_find_conn(cid) {
                Some(conn) => {
                    &&& r matches Some((target, resp)) && target == conn.owner
                    &&& match outcome {
                        Ok(u) => r matches Some((target, resp)) && resp
                            == (InternalServiceResponse::MessageSent { cid }),
                        Err(msg) => r matches Some((target, resp)) && resp_message_send_error(
                            resp,
                            cid,
                            msg@,
                        ),
                    }
                },
                None => r is None,
            },
    {
        match self.find_conn_index(cid) {
            Some(i) => {
                let owner = self.conns[i].owner;
                match outcome {
                    Ok(()) => Some((owner, InternalServiceResponse::MessageSent { cid })),
                    Err(message) => Some((
                        owner,
                        InternalServiceResponse::MessageSendError { cid, message },
                    )),
                }
            },
            None => None,
        }
    }
}

/// Applies the remote engine's answer to a `Register` dispatch; the
/// outcome is reported to the requesting session.
pub fn apply_register_outcome(uuid: u128, outcome: Result<(), String>) -> (r: (
    u128,
    InternalServiceResponse,
))
    ensures
        r.0 == uuid,
        match outcome {
            Ok(u) => r.1 == (InternalServiceResponse::RegisterSuccess { id: uuid }),
            Err(msg) => resp_register_failure(r.1, msg@),
        },
{
    match outcome {
        Ok(()) => (uuid, InternalServiceResponse::RegisterSuccess { id: uuid }),
        Err(message) => (uuid, InternalServiceResponse::RegisterFailure { message }),
    }
}

/// Applies the remote engine's answer to a `Disconnect` dispatch; the
/// outcome is reported to the requesting session.
pub fn apply_disconnect_outcome(uuid: u128, cid: u64, outcome: Result<(), String>) -> (r: (
    u128,
    InternalServiceResponse,
))
    ensures
        r.0 == uuid,
        match outcome {
            Ok(u) => r.1 == (InternalServiceResponse::DisconnectSuccess { cid }),
            Err(msg) => resp_disconnect_failure(r.1, cid, msg@),
        },
{
    match outcome {
        Ok(()) => (uuid, InternalServiceResponse::DisconnectSuccess { cid }),
        Err(message) => (uuid, InternalServiceResponse::DisconnectFailure { cid, message }),
    }
}

/// Applies the outcome of a file transfer (upload or download); the
/// outcome is reported to the requesting session.
pub fn apply_file_outcome(uuid: u128, cid: u64, outcome: Result<(), String>) -> (r: (
    u128,
    InternalServiceResponse,
))
    ensures
        r.0 == uuid,
        match outcome {
            Ok(u) => r.1 == (InternalServiceResponse::SendFileSuccess { cid }),
            Err(msg) => resp_send_file_failure(r.1, cid, msg@),
        },
{
    match outcome {
        Ok(()) => (uuid, InternalServiceResponse::SendFileSuccess { cid }),
        Err(message) => (uuid, InternalServiceResponse::SendFileFailure { cid, message }),
    }
}

/// Applies the outcome of a group-invite dispatch. The response schema has
/// no variant for a group result, so success stays silent and a failure is
/// reported through the connection-scoped error variant.
pub fn apply_group_outcome(uuid: u128, cid: u64, outcome: Result<(), String>) -> (r: Option<
    (u128, InternalServiceResponse),
>)
    ensures
        match outcome {
            Ok(u) => r is None,
            Err(msg) => r matches Some((target, resp)) && target == uuid
                && resp_message_send_error(resp, cid, msg@),
        },
{
    match outcome {
        Ok(()) => None,
        Err(message) => Some((uuid, InternalServiceResponse::MessageSendError { cid, message })),
    }
}

/// The session an inbound payload on `cid` is routed to, if any.
pub open spec fn route_target(r: CommandRouter, cid: u64) -> Option<u128> {
    match r.spec_find_conn(cid) {
        Some(conn) => Some(conn.owner),
        None => None,
    }
}

/// Law: inbound traffic on a connection reaches only the session that owns
/// it. If `cid` is owned by one session, it is routed to that session and
/// to no other; `incoming_message` promises exactly this target.
pub proof fn lemma_no_cross_session_delivery(r: CommandRouter, cid: u64, u1: u128, u2: u128)
    requires
        r.wf(),
        r.spec_find_conn(cid) matches Some(conn) && conn.owner == u1,
        u1 != u2,
    ensures
        route_target(r, cid) == Some(u1),
        route_target(r, cid) != Some(u2),
{
}

/// The diagnostic for a connection id the engine handed out twice.
pub open spec fn spec_duplicate_conn() -> Seq<char> {
    "duplicate connection id"@
}

/// Builds the "connection not found" diagnostic.
fn not_found_text() -> (s: String)
    ensures
        s@ == spec_not_found(),
{
    "connection not found".to_owned()
}

/// Builds the "duplicate connection id" diagnostic.
fn duplicate_conn_text() -> (s: String)
    ensures
        s@ == spec_duplicate_conn(),
{
    "duplicate connection id".to_owned()
}

} // verus!
