//! The routing table: SFN name to connection id, with the admission policy.
//!
//! The router owns admission: a handshake with an empty name or a credential
//! that does not match the configured token is refused, anything else inserts
//! the name and hands back the displaced connection id, if any. Lookups are
//! exact-match. Removal purges every entry pointing at a connection.

use vstd::prelude::*;

use crate::types::{HandshakeRequest, HandshakeRequestV, RequestHeaders};

verus! {

/// Why a handshake is refused.
#[derive(Clone, Copy, Debug, PartialEq, Eq, Structural)]
pub enum AdmissionError {
    /// The handshake named no function.
    EmptyName,
    /// The credential did not match the configured token.
    InvalidCredential,
}

impl AdmissionError {
    /// The HTTP-like status code of the refusal: 400 for an empty name,
    /// 401 for a bad credential.
    pub fn status_code(&self) -> (r: u16)
        ensures
            r == self.spec_status_code(),
    {
        match self {
            AdmissionError::EmptyName => 400,
            AdmissionError::InvalidCredential => 401,
        }
    }

    /// The status code as a spec value.
    pub open spec fn spec_status_code(&self) -> u16 {
        match self {
            AdmissionError::EmptyName => 400,
            AdmissionError::InvalidCredential => 401,
        }
    }

    /// A short reason for the handshake response.
    pub fn message(&self) -> (r: String)
        ensures
            self == AdmissionError::EmptyName ==> r@ == "sfn name is empty"@,
            self == AdmissionError::InvalidCredential ==> r@ == "invalid credential"@,
    {
        match self {
            AdmissionError::EmptyName => "sfn name is empty".to_owned(),
            AdmissionError::InvalidCredential => "invalid credential".to_owned(),
        }
    }
}

/// The name/connection pairs of an association list, as mathematical values.
pub open spec fn entry_views(entries: Seq<(String, u64)>) -> Seq<(Seq<char>, u64)> {
    entries.map_values(|e: (String, u64)| (e.0@, e.1))
}

/// No name occurs twice.
pub open spec fn keys_unique(s: Seq<(Seq<char>, u64)>) -> bool {
    forall|i: int, j: int| 0 <= i < j < s.len() ==> s[i].0 != s[j].0
}

/// The map an association list denotes; later entries override earlier ones.
pub open spec fn entries_map(s: Seq<(Seq<char>, u64)>) -> Map<Seq<char>, u64>
    decreases s.len(),
{
    if s.len() == 0 {
        Map::empty()
    } else {
        entries_map(s.drop_last()).insert(s.last().0, s.last().1)
    }
}

/// With unique keys, the map contains exactly the listed names, each bound to
/// its entry's connection id.
pub proof fn lemma_entries_map_props(s: Seq<(Seq<char>, u64)>)
    requires
        keys_unique(s),
    ensures
        forall|k: Seq<char>|
            entries_map(s).contains_key(k) <==> exists|i: int| 0 <= i < s.len() && s[i].0 == k,
        forall|i: int|
            0 <= i < s.len() ==> entries_map(s).contains_key(#[trigger] s[i].0) && entries_map(s)[
                s[i].0
            ] == s[i].1,
    decreases s.len(),
{
    if s.len() > 0 {
        let d = s.drop_last();
        let m = entries_map(s);
        assert(keys_unique(d)) by {
            assert(forall|i: int, j: int|
                0 <= i < j < d.len() ==> d[i] == s[i] && d[j] == s[j]);
        }
        lemma_entries_map_props(d);
        assert(m == entries_map(d).insert(s.last().0, s.last().1));
        assert(forall|i: int| 0 <= i < s.len() - 1 ==> #[trigger] s[i] == d[i]);
        assert forall|k: Seq<char>| #[trigger]
            m.contains_key(k) implies exists|i: int| 0 <= i < s.len() && s[i].0 == k by {
            if k == s.last().0 {
                assert(s[s.len() - 1].0 == k);
            } else {
                assert(entries_map(d).contains_key(k));
                let i = choose|i: int| 0 <= i < d.len() && d[i].0 == k;
                assert(s[i].0 == k);
            }
        }
        assert forall|k: Seq<char>| (exists|i: int| 0 <= i < s.len() && s[i].0 == k) implies #[trigger]
            m.contains_key(k) by {
            let i = choose|i: int| 0 <= i < s.len() && s[i].0 == k;
            if i < s.len() - 1 {
                assert(d[i].0 == k);
            }
        }
        assert forall|i: int| 0 <= i < s.len() implies m.contains_key(#[trigger] s[i].0) && m[
            s[i].0
        ] == s[i].1 by {
            if i < s.len() - 1 {
                assert(d[i] == s[i]);
                assert(s[i].0 != s.last().0);
            }
        }
    }
}

/// The entries that survive the removal of a connection id.
pub open spec fn remove_value(s: Seq<(Seq<char>, u64)>, id: u64) -> Seq<(Seq<char>, u64)>
    decreases s.len(),
{
    if s.len() == 0 {
        Seq::empty()
    } else {
        let rest = remove_value(s.drop_last(), id);
        if s.last().1 == id {
            rest
        } else {
            rest.push(s.last())
        }
    }
}

/// Removal keeps exactly the entries bound to other connection ids, and keeps
/// keys unique.
pub proof fn lemma_remove_value_props(s: Seq<(Seq<char>, u64)>, id: u64)
    requires
        keys_unique(s),
    ensures
        keys_unique(remove_value(s, id)),
        forall|i: int|
            0 <= i < remove_value(s, id).len() ==> (#[trigger] remove_value(s, id)[i]).1 != id
                && exists|j: int| 0 <= j < s.len() && s[j] == remove_value(s, id)[i],
        forall|j: int|
            0 <= j < s.len() && (#[trigger] s[j]).1 != id ==> exists|i: int|
                0 <= i < remove_value(s, id).len() && remove_value(s, id)[i] == s[j],
    decreases s.len(),
{
    if s.len() > 0 {
        let d = s.drop_last();
        let r = remove_value(s, id);
        let rr = remove_value(d, id);
        assert(keys_unique(d)) by {
            assert(forall|i: int, j: int|
                0 <= i < j < d.len() ==> d[i] == s[i] && d[j] == s[j]);
        }
        lemma_remove_value_props(d, id);
        assert(forall|i: int| 0 <= i < s.len() - 1 ==> #[trigger] s[i] == d[i]);
        assert forall|i: int|
            0 <= i < rr.len() implies exists|j: int|
            0 <= j < s.len() && s[j] == #[trigger] rr[i] by {
            let j = choose|j: int| 0 <= j < d.len() && d[j] == rr[i];
            assert(s[j] == rr[i]);
        }
        if s.last().1 != id {
            assert(forall|i: int| 0 <= i < rr.len() ==> #[trigger] r[i] == rr[i]);
            assert(r[r.len() - 1] == s.last());
            assert(keys_unique(r)) by {
                assert forall|i: int, j: int| 0 <= i < j < r.len() implies r[i].0 != r[j].0 by {
                    if j == r.len() - 1 {
                        let jj = choose|jj: int| 0 <= jj < d.len() && d[jj] == rr[i];
                        assert(s[jj] == r[i]);
                        assert(s[jj].0 != s[s.len() - 1].0);
                    }
                }
            }
            assert forall|j: int|
                0 <= j < s.len() && (#[trigger] s[j]).1 != id implies exists|i: int|
                0 <= i < r.len() && r[i] == s[j] by {
                if j == s.len() - 1 {
                    assert(r[r.len() - 1] == s[j]);
                } else {
                    let i = choose|i: int| 0 <= i < rr.len() && rr[i] == d[j];
                    assert(r[i] == s[j]);
                }
            }
        } else {
            assert forall|j: int|
                0 <= j < s.len() && (#[trigger] s[j]).1 != id implies exists|i: int|
                0 <= i < r.len() && r[i] == s[j] by {
                let i = choose|i: int| 0 <= i < rr.len() && rr[i] == d[j];
                assert(r[i] == s[j]);
            }
        }
    }
}

/// Router: admission control and name resolution for the dispatch plane.
pub trait Router: Sized {
    /// The routing table this router denotes.
    spec fn routes(&self) -> Map<Seq<char>, u64>;

    /// Internal consistency of the representation.
    spec fn wf(&self) -> bool;

    /// Whether a handshake would be admitted.
    spec fn admits(&self, req: HandshakeRequestV) -> bool;

    /// The refusal an inadmissible handshake gets.
    spec fn refusal(&self, req: HandshakeRequestV) -> AdmissionError;

    /// Handle an SFN registration handshake: admit or refuse, insert the name
    /// on admission, and return the displaced connection id if the name was
    /// already bound.
    fn handshake(&mut self, conn_id: u64, req: &HandshakeRequest) -> (r: Result<
        Option<u64>,
        AdmissionError,
    >)
        requires
            old(self).wf(),
        ensures
            final(self).wf(),
            final(self).admits(req@) == old(self).admits(req@),
            match r {
                Ok(prev) => {
                    &&& old(self).admits(req@)
                    &&& final(self).routes() == old(self).routes().insert(req.sfn_name@, conn_id)
                    &&& prev == if old(self).routes().contains_key(req.sfn_name@) {
                        Some(old(self).routes()[req.sfn_name@])
                    } else {
                        Option::<u64>::None
                    }
                },
                Err(e) => {
                    &&& !old(self).admits(req@)
                    &&& e == old(self).refusal(req@)
                    &&& final(self).routes() == old(self).routes()
                },
            },
    ;

    /// Route request headers to the owning connection by exact name match.
    fn route(&self, headers: &RequestHeaders) -> (r: Option<u64>)
        requires
            self.wf(),
        ensures
            r == if self.routes().contains_key(headers.sfn_name@) {
                Some(self.routes()[headers.sfn_name@])
            } else {
                Option::<u64>::None
            },
    ;

    /// Remove every routing entry pointing at a disconnected connection.
    fn remove_sfn(&mut self, conn_id: u64)
        requires
            old(self).wf(),
        ensures
            final(self).wf(),
            forall|k: Seq<char>|
                #![trigger final(self).routes().contains_key(k)]
                #![trigger old(self).routes().contains_key(k)]
                final(self).routes().contains_key(k) <==> (old(self).routes().contains_key(k)
                    && old(self).routes()[k] != conn_id),
            forall|k: Seq<char>|
                #![trigger final(self).routes().contains_key(k)]
                #![trigger old(self).routes().contains_key(k)]
                final(self).routes().contains_key(k) ==> final(self).routes()[k] == old(
                    self,
                ).routes()[k],
            forall|req: HandshakeRequestV|
                final(self).admits(req) == old(self).admits(req) && final(self).refusal(req) == old(
                    self,
                ).refusal(req),
    ;
}

/// Authentication law: with a token configured, a handshake whose credential
/// is not exactly the token is never admitted -- `handshake` then returns the
/// refusal and leaves the table unchanged -- and for a non-empty name the
/// refusal is the invalid-credential one, status 401.
pub proof fn lemma_authentication(r: &RouterImpl, req: HandshakeRequestV)
    requires
        r.auth_token_view() is Some,
        req.credential != r.auth_token_view().unwrap(),
    ensures
        !r.admits(req),
        req.sfn_name.len() > 0 ==> r.refusal(req) == AdmissionError::InvalidCredential
            && r.refusal(req).spec_status_code() == 401,
{
}

/// The stock router: an in-memory table guarded by an optional bearer token.
pub struct RouterImpl {
    auth_token: Option<String>,
    entries: Vec<(String, u64)>,
}

impl RouterImpl {
    /// The configured token, if any.
    pub closed spec fn auth_token_view(&self) -> Option<Seq<char>> {
        match self.auth_token {
            Some(t) => Some(t@),
            None => None,
        }
    }

    /// The table entries as mathematical values.
    pub closed spec fn entries_view(&self) -> Seq<(Seq<char>, u64)> {
        entry_views(self.entries@)
    }

    /// Make a router with no routes; handshakes are checked against
    /// `auth_token` if one is given.
    pub fn new(auth_token: Option<String>) -> (r: RouterImpl)
        ensures
            r.wf(),
            r.routes() == Map::<Seq<char>, u64>::empty(),
            r.auth_token_view() == match auth_token {
                Some(t) => Some(t@),
                None => Option::<Seq<char>>::None,
            },
    {
        let r = RouterImpl { auth_token, entries: Vec::new() };
        proof {
            assert(r.entries_view() =~= Seq::<(Seq<char>, u64)>::empty());
            assert(r.routes() =~= Map::<Seq<char>, u64>::empty());
        }
        r
    }

    /// Look a name up directly.
    pub fn lookup(&self, name: &String) -> (r: Option<u64>)
        requires
            self.wf(),
        ensures
            r == if self.routes().contains_key(name@) {
                Some(self.routes()[name@])
            } else {
                Option::<u64>::None
            },
    {
        proof {
            lemma_entries_map_props(self.entries_view());
        }
        match self.find(name) {
            Some(i) => Some(self.entries[i].1),
            None => None,
        }
    }

    /// Find the index of a name in the table.
    fn find(&self, name: &String) -> (r: Option<usize>)
        requires
            self.wf(),
        ensures
            match r {
                Some(i) => i < self.entries_view().len() && self.entries_view()[i as int].0
                    == name@,
                None => forall|i: int|
                    0 <= i < self.entries_view().len() ==> (#[trigger] self.entries_view()[i]).0
                        != name@,
            },
    {
        let n = self.entries.len();
        let mut i: usize = 0;
        while i < n
            invariant
                n == self.entries@.len(),
                i <= n,
                forall|j: int|
                    0 <= j < i ==> (#[trigger] entry_views(self.entries@)[j]).0 != name@,
            decreases n - i,
        {
            if self.entries[i].0 == *name {
                return Some(i);
            }
            i = i + 1;
        }
        None
    }
}

impl Router for RouterImpl {
    open spec fn routes(&self) -> Map<Seq<char>, u64> {
        entries_map(self.entries_view())
    }

    open spec fn wf(&self) -> bool {
        keys_unique(self.entries_view())
    }

    open spec fn admits(&self, req: HandshakeRequestV) -> bool {
        req.sfn_name.len() > 0 && match self.auth_token_view() {
            Some(t) => req.credential == t,
            None => true,
        }
    }

    open spec fn refusal(&self, req: HandshakeRequestV) -> AdmissionError {
        if req.sfn_name.len() == 0 {
            AdmissionError::EmptyName
        } else {
            AdmissionError::InvalidCredential
        }
    }

    fn handshake(&mut self, conn_id: u64, req: &HandshakeRequest) -> (r: Result<
        Option<u64>,
        AdmissionError,
    >) {
        self.register(conn_id, req)
    }

    fn route(&self, headers: &RequestHeaders) -> (r: Option<u64>) {
        self.lookup(&headers.sfn_name)
    }

    fn remove_sfn(&mut self, conn_id: u64) {
        self.purge(conn_id)
    }
}

impl RouterImpl {
    /// Admit or refuse a handshake; on admission bind the name and hand back
    /// the displaced connection id, if any. The configured token never
    /// changes.
    pub fn register(&mut self, conn_id: u64, req: &HandshakeRequest) -> (r: Result<
        Option<u64>,
        AdmissionError,
    >)
        requires
            old(self).wf(),
        ensures
            final(self).wf(),
            final(self).auth_token_view() == old(self).auth_token_view(),
            match r {
                Ok(prev) => {
                    &&& old(self).admits(req@)
                    &&& final(self).routes() == old(self).routes().insert(req.sfn_name@, conn_id)
                    &&& prev == if old(self).routes().contains_key(req.sfn_name@) {
                        Some(old(self).routes()[req.sfn_name@])
                    } else {
                        Option::<u64>::None
                    }
                },
                Err(e) => {
                    &&& !old(self).admits(req@)
                    &&& e == old(self).refusal(req@)
                    &&& final(self).routes() == old(self).routes()
                },
            },
    {
        if req.sfn_name.as_str().is_empty() {
            return Err(AdmissionError::EmptyName);
        }
        match &self.auth_token {
            Some(token) => {
                if !(req.credential == *token) {
                    return Err(AdmissionError::InvalidCredential);
                }
            },
            None => {},
        }
        proof {
            lemma_entries_map_props(self.entries_view());
        }
        let ghost old_views = self.entries_view();
        match self.find(&req.sfn_name) {
            Some(i) => {
                let prev: u64 = self.entries[i].1;
                let ghost pre_views = self.entries_view();
                let elem = (req.sfn_name.clone(), conn_id);
                self.entries.remove(i);
                self.entries.push(elem);
                proof {
                    let views = self.entries_view();
                    assert(views =~= pre_views.remove(i as int).push(
                        (req.sfn_name@, conn_id),
                    ));
                    lemma_insert_shape(pre_views, i as int, req.sfn_name@, conn_id);
                }
                Ok(Some(prev))
            },
            None => {
                let elem = (req.sfn_name.clone(), conn_id);
                self.entries.push(elem);
                proof {
                    let views = self.entries_view();
                    assert(views =~= old_views.push((req.sfn_name@, conn_id)));
                    assert(views.drop_last() =~= old_views);
                    assert(keys_unique(views)) by {
                        assert(forall|j: int|
                            0 <= j < old_views.len() ==> (#[trigger] views[j]) == old_views[j]);
                    }
                    assert(self.routes() =~= entries_map(old_views).insert(
                        req.sfn_name@,
                        conn_id,
                    ));
                }
                Ok(None)
            },
        }
    }

    /// Remove every routing entry pointing at a disconnected connection. The
    /// configured token never changes.
    pub fn purge(&mut self, conn_id: u64)
        requires
            old(self).wf(),
        ensures
            final(self).wf(),
            final(self).auth_token_view() == old(self).auth_token_view(),
            forall|k: Seq<char>|
                #![trigger final(self).routes().contains_key(k)]
                #![trigger old(self).routes().contains_key(k)]
                final(self).routes().contains_key(k) <==> (old(self).routes().contains_key(k)
                    && old(self).routes()[k] != conn_id),
            forall|k: Seq<char>|
                #![trigger final(self).routes().contains_key(k)]
                final(self).routes().contains_key(k) ==> final(self).routes()[k] == old(
                    self,
                ).routes()[k],
    {
        let ghost old_views = self.entries_view();
        let mut kept: Vec<(String, u64)> = Vec::new();
        let n = self.entries.len();
        let mut i: usize = 0;
        while i < n
            invariant
                n == self.entries@.len(),
                i <= n,
                entry_views(kept@) == remove_value(
                    entry_views(self.entries@).subrange(0, i as int),
                    conn_id,
                ),
            decreases n - i,
        {
            let ghost pre = entry_views(self.entries@).subrange(0, i as int);
            let ghost post = entry_views(self.entries@).subrange(0, i + 1);
            proof {
                assert(post.drop_last() =~= pre);
            }
            if self.entries[i].1 != conn_id {
                let name = self.entries[i].0.clone();
                let id = self.entries[i].1;
                kept.push((name, id));
                proof {
                    assert(entry_views(kept@) =~= remove_value(pre, conn_id).push(
                        (self.entries@[i as int].0@, self.entries@[i as int].1),
                    ));
                }
            }
            i = i + 1;
        }
        proof {
            assert(entry_views(self.entries@).subrange(0, n as int) =~= entry_views(
                self.entries@,
            ));
        }
        self.entries = kept;
        proof {
            lemma_remove_value_props(old_views, conn_id);
            lemma_entries_map_props(old_views);
            lemma_entries_map_props(self.entries_view());
            assert forall|k: Seq<char>| #[trigger]
                self.routes().contains_key(k) implies entries_map(old_views).contains_key(k)
                && entries_map(old_views)[k] != conn_id && self.routes()[k] == entries_map(
                old_views,
            )[k] by {
                let i = choose|i: int|
                    0 <= i < self.entries_view().len() && self.entries_view()[i].0 == k;
                let j = choose|j: int| 0 <= j < old_views.len() && old_views[j] == self.entries_view()[i];
            }
            assert forall|k: Seq<char>|
                entries_map(old_views).contains_key(k) && entries_map(old_views)[k]
                    != conn_id implies #[trigger] self.routes().contains_key(k) by {
                let j = choose|j: int| 0 <= j < old_views.len() && old_views[j].0 == k;
                assert(old_views[j].1 == entries_map(old_views)[k]);
                assert(exists|i: int|
                    0 <= i < self.entries_view().len() && self.entries_view()[i] == old_views[j]);
            }
        }
    }
}

/// Replacing the one entry that holds a key, wherever it stands, denotes the
/// same map as inserting that key.
proof fn lemma_insert_shape(s: Seq<(Seq<char>, u64)>, i: int, k: Seq<char>, v: u64)
    requires
        keys_unique(s),
        0 <= i < s.len(),
        s[i].0 == k,
    ensures
        keys_unique(s.remove(i).push((k, v))),
        entries_map(s.remove(i).push((k, v))) == entries_map(s).insert(k, v),
{
    let r = s.remove(i).push((k, v));
    assert(keys_unique(r)) by {
        assert(forall|j: int| 0 <= j < i ==> #[trigger] s.remove(i)[j] == s[j]);
        assert(forall|j: int|
            i <= j < s.len() - 1 ==> #[trigger] s.remove(i)[j] == s[j + 1]);
        assert forall|a: int, b: int| 0 <= a < b < r.len() implies r[a].0 != r[b].0 by {
            if b == r.len() - 1 {
                if a < i {
                    assert(r[a] == s[a]);
                    assert(s[a].0 != s[i].0);
                } else {
                    assert(r[a] == s[a + 1]);
                    assert(s[i].0 != s[a + 1].0);
                }
            }
        }
    }
    lemma_entries_map_props(s);
    lemma_entries_map_props(r);
    let m1 = entries_map(r);
    let m2 = entries_map(s).insert(k, v);
    assert forall|key: Seq<char>| m1.contains_key(key) implies m2.contains_key(key) && m1[key]
        == m2[key] by {
        let a = choose|a: int| 0 <= a < r.len() && r[a].0 == key;
        if a == r.len() - 1 {
            assert(m1[key] == v);
        } else {
            if a < i {
                assert(r[a] == s[a]);
            } else {
                assert(r[a] == s[a + 1]);
            }
            assert(key != k) by {
                if a < i {
                    assert(s[a].0 != s[i].0);
                } else {
                    assert(s[i].0 != s[a + 1].0);
                }
            }
        }
    }
    assert forall|key: Seq<char>| m2.contains_key(key) implies m1.contains_key(key) by {
        if key == k {
            assert(r[r.len() - 1].0 == key);
        } else {
            let a = choose|a: int| 0 <= a < s.len() && s[a].0 == key;
            assert(a != i);
            if a < i {
                assert(r[a] == s[a]);
            } else {
                assert(r[a - 1] == s[a]);
            }
        }
    }
    assert(m1 =~= m2);
}

} // verus!
