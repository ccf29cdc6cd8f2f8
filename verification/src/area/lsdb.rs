//! The link-state database of one area.
use vstd::prelude::*;

use crate::codec::{be16, be32, get16, get32, lemma_get16_be16, lemma_get32_be32, push_be16, push_be32, read_be16, read_be32};
use crate::lsa::{Header, Lsa, LsaView};

verus! {

/// What names an LSA: its type, link-state id and advertising router.
#[derive(Clone, Copy, PartialEq, Eq, Debug, Structural)]
pub struct LsaIdentifer {
    pub lsa_type: u32,
    pub link_state_id: u32,
    pub advertising_router: u32,
}

/// The wire form of an identifier, as an LSR packet carries it.
pub open spec fn identifier_bytes(id: LsaIdentifer) -> Seq<u8> {
    be32(id.lsa_type) + be32(id.link_state_id) + be32(id.advertising_router)
}

/// The identifier that the first 12 bytes of `s` hold, if `s` is that long.
pub open spec fn parse_identifier(s: Seq<u8>) -> Option<LsaIdentifer> {
    if s.len() < 12 {
        None
    } else {
        Some(
            LsaIdentifer {
                lsa_type: get32(s, 0),
                link_state_id: get32(s, 4),
                advertising_router: get32(s, 8),
            },
        )
    }
}

/// The identifier of the LSA that a header heads.
pub open spec fn identifier_of(h: Header) -> LsaIdentifer {
    LsaIdentifer {
        lsa_type: h.lsa_type as u32,
        link_state_id: h.link_state_id,
        advertising_router: h.advertising_router,
    }
}

/// Reading an identifier back from its wire form, followed by anything, gives the identifier.
pub proof fn lemma_parse_identifier_bytes(id: LsaIdentifer, rest: Seq<u8>)
    ensures
        identifier_bytes(id).len() == 12,
        parse_identifier(identifier_bytes(id) + rest) == Some(id),
{
    let s = identifier_bytes(id) + rest;
    assert(s.subrange(0, 4) == be32(id.lsa_type));
    assert(s.subrange(4, 8) == be32(id.link_state_id));
    assert(s.subrange(8, 12) == be32(id.advertising_router));
    lemma_get32_be32(s, 0, id.lsa_type);
    lemma_get32_be32(s, 4, id.link_state_id);
    lemma_get32_be32(s, 8, id.advertising_router);
}

impl LsaIdentifer {
    pub fn from_header(lsa_header: &Header) -> (r: Self)
        ensures
            r == identifier_of(*lsa_header),
    {
        Self {
            lsa_type: lsa_header.lsa_type as u32,
            link_state_id: lsa_header.link_state_id,
            advertising_router: lsa_header.advertising_router,
        }
    }

    pub fn to_be_bytes(&self) -> (r: [u8; 12])
        ensures
            r@ == identifier_bytes(*self),
    {
        let mut v: Vec<u8> = Vec::new();
        push_be32(&mut v, self.lsa_type);
        push_be32(&mut v, self.link_state_id);
        push_be32(&mut v, self.advertising_router);
        let r = [v[0], v[1], v[2], v[3], v[4], v[5], v[6], v[7], v[8], v[9], v[10], v[11]];
        assert(r@ == v@);
        r
    }

    pub fn length() -> (r: usize)
        ensures
            r == 12,
    {
        12
    }

    pub fn try_from_be_bytes(bytes: &[u8]) -> (r: Option<Self>)
        ensures
            r == parse_identifier(bytes@),
    {
        if bytes.len() < Self::length() {
            return None;
        }
        Some(
            Self {
                lsa_type: read_be32(bytes, 0),
                link_state_id: read_be32(bytes, 4),
                advertising_router: read_be32(bytes, 8),
            },
        )
    }
}

/// The identifier that an LSA is filed under: the one its header gives.
pub open spec fn key_of(v: LsaView) -> LsaIdentifer {
    identifier_of(v.header())
}

/// The map from identifiers to LSAs that a list of LSAs files, later entries over earlier.
pub open spec fn to_map(s: Seq<LsaView>) -> Map<LsaIdentifer, LsaView>
    decreases s.len(),
{
    if s.len() == 0 {
        Map::empty()
    } else {
        to_map(s.drop_last()).insert(key_of(s.last()), s.last())
    }
}

/// No two LSAs of the list are filed under the same identifier.
pub open spec fn keys_unique(s: Seq<LsaView>) -> bool {
    forall|i: int, j: int| 0 <= i < j < s.len() ==> key_of(s[i]) != key_of(s[j])
}

pub proof fn lemma_to_map_contains(s: Seq<LsaView>, id: LsaIdentifer)
    ensures
        to_map(s).contains_key(id) <==> exists|i: int| 0 <= i < s.len() && key_of(s[i]) == id,
    decreases s.len(),
{
    if s.len() > 0 {
        lemma_to_map_contains(s.drop_last(), id);
        if to_map(s.drop_last()).contains_key(id) {
            let i = choose|i: int| 0 <= i < s.len() - 1 && key_of(s.drop_last()[i]) == id;
            assert(s[i] == s.drop_last()[i]);
        }
        if exists|i: int| 0 <= i < s.len() && key_of(s[i]) == id {
            let i = choose|i: int| 0 <= i < s.len() && key_of(s[i]) == id;
            if i < s.len() - 1 {
                assert(s.drop_last()[i] == s[i]);
            }
        }
    }
}

pub proof fn lemma_to_map_index(s: Seq<LsaView>, i: int)
    requires
        keys_unique(s),
        0 <= i < s.len(),
    ensures
        to_map(s).contains_key(key_of(s[i])),
        to_map(s)[key_of(s[i])] == s[i],
    decreases s.len(),
{
    if i < s.len() - 1 {
        let p = s.drop_last();
        assert(keys_unique(p)) by {
            assert forall|a: int, b: int| 0 <= a < b < p.len() implies key_of(p[a]) != key_of(
                p[b],
            ) by {
                assert(p[a] == s[a] && p[b] == s[b]);
            }
        }
        assert(p[i] == s[i]);
        lemma_to_map_index(p, i);
        assert(key_of(s[i]) != key_of(s.last()));
    }
}

/// Two duplicate-free lists file the same map when they hold the same LSAs under each key.
pub proof fn lemma_to_map_ext(s: Seq<LsaView>, m: Map<LsaIdentifer, LsaView>)
    requires
        keys_unique(s),
        forall|id: LsaIdentifer| #[trigger]
            m.contains_key(id) <==> exists|i: int| 0 <= i < s.len() && key_of(s[i]) == id,
        forall|i: int| 0 <= i < s.len() ==> #[trigger] m[key_of(s[i])] == s[i],
    ensures
        to_map(s) == m,
{
    assert forall|id: LsaIdentifer| #[trigger] to_map(s).contains_key(id) == m.contains_key(id) by {
        lemma_to_map_contains(s, id);
    }
    assert forall|id: LsaIdentifer| #[trigger] to_map(s).contains_key(id) implies to_map(s)[id]
        == m[id] by {
        lemma_to_map_contains(s, id);
        let i = choose|i: int| 0 <= i < s.len() && key_of(s[i]) == id;
        lemma_to_map_index(s, i);
    }
    assert(to_map(s) =~= m);
}

/// The list with `delta` added to the age of every LSA.
pub open spec fn aged(s: Seq<LsaView>, delta: u16) -> Seq<LsaView> {
    s.map_values(|v: LsaView| v.with_age((v.header().age + delta) as u16))
}

/// An LSA `delta` seconds older.
pub open spec fn older(v: LsaView, delta: u16) -> LsaView {
    v.with_age((v.header().age + delta) as u16)
}

/// Aging changes nothing but the ages: the same identifiers are filed, each with its LSA
/// `delta` seconds older.
pub proof fn lemma_aged_map(s: Seq<LsaView>, delta: u16)
    ensures
        to_map(aged(s, delta)) == to_map(s).map_values(|v: LsaView| older(v, delta)),
    decreases s.len(),
{
    let f = |v: LsaView| older(v, delta);
    if s.len() == 0 {
        assert(to_map(aged(s, delta)) =~= to_map(s).map_values(f));
    } else {
        let p = s.drop_last();
        let last = s.last();
        lemma_aged_map(p, delta);
        assert(aged(s, delta).drop_last() =~= aged(p, delta));
        assert(aged(s, delta).last() == older(last, delta));
        assert(key_of(older(last, delta)) == key_of(last));
        assert(to_map(aged(s, delta)) =~= to_map(s).map_values(f));
    }
}

/// The LSAs of one kind, each filed under its identifier, in the order they were first filed.
pub struct LsaTable {
    entries: Vec<Lsa>,
}

impl LsaTable {
    /// The LSAs in the order they are kept.
    pub closed spec fn entries(self) -> Seq<LsaView> {
        self.entries@.map_values(|l: Lsa| l@)
    }

    /// No two LSAs are filed under the same identifier.
    pub open spec fn wf(self) -> bool {
        keys_unique(self.entries())
    }
}

impl View for LsaTable {
    type V = Map<LsaIdentifer, LsaView>;

    open spec fn view(&self) -> Map<LsaIdentifer, LsaView> {
        to_map(self.entries())
    }
}

impl LsaTable {
    pub fn new() -> (r: Self)
        ensures
            r.wf(),
            r.entries() == Seq::<LsaView>::empty(),
            r@ == Map::<LsaIdentifer, LsaView>::empty(),
    {
        let r = LsaTable { entries: Vec::new() };
        assert(r.entries() =~= Seq::<LsaView>::empty());
        r
    }

    /// Where the LSA filed under `id` is kept.
    fn find(&self, id: LsaIdentifer) -> (r: Option<usize>)
        ensures
            match r {
                Some(i) => i < self.entries().len() && key_of(self.entries()[i as int]) == id,
                None => forall|i: int| 0 <= i < self.entries().len() ==> key_of(#[trigger] self.entries()[i]) != id,
            },
    {
        let mut i: usize = 0;
        while i < self.entries.len()
            invariant
                i <= self.entries.len(),
                forall|j: int| 0 <= j < i ==> key_of(#[trigger] self.entries()[j]) != id,
            decreases self.entries.len() - i,
        {
            let h = self.entries[i].copy_header();
            let k = LsaIdentifer::from_header(&h);
            assert(self.entries()[i as int] == self.entries@[i as int]@);
            if k == id {
                return Some(i);
            }
            i = i + 1;
        }
        None
    }

    pub fn contains(&self, id: LsaIdentifer) -> (r: bool)
        requires
            self.wf(),
        ensures
            r == self@.contains_key(id),
    {
        proof {
            lemma_to_map_contains(self.entries(), id);
        }
        match self.find(id) {
            Some(_) => true,
            None => false,
        }
    }

    pub fn get(&self, id: LsaIdentifer) -> (r: Option<Lsa>)
        requires
            self.wf(),
        ensures
            match r {
                Some(l) => self@.contains_key(id) && self@[id] == l@,
                None => !self@.contains_key(id),
            },
    {
        proof {
            lemma_to_map_contains(self.entries(), id);
        }
        match self.find(id) {
            Some(i) => {
                proof {
                    lemma_to_map_index(self.entries(), i as int);
                }
                assert(self.entries()[i as int] == self.entries@[i as int]@);
                Some(self.entries[i].clone())
            },
            None => None,
        }
    }

    /// Files `lsa` under its identifier, in place of any LSA filed there before.
    pub fn insert(&mut self, lsa: Lsa)
        requires
            old(self).wf(),
        ensures
            final(self).wf(),
            final(self)@ == old(self)@.insert(key_of(lsa@), lsa@),
    {
        let h = lsa.copy_header();
        let id = LsaIdentifer::from_header(&h);
        let ghost old_s = self.entries();
        let ghost v = lsa@;
        match self.find(id) {
            Some(i) => {
                self.entries.set(i, lsa);
                proof {
                    let s = self.entries();
                    assert(s =~= old_s.update(i as int, v));
                    assert forall|a: int, b: int| 0 <= a < b < s.len() implies key_of(s[a])
                        != key_of(s[b]) by {
                        assert(key_of(old_s[i as int]) == id);
                    }
                    let m = to_map(old_s).insert(id, v);
                    assert forall|k: LsaIdentifer| #[trigger] m.contains_key(k) <==> exists|j: int|
                        0 <= j < s.len() && key_of(s[j]) == k by {
                        lemma_to_map_contains(old_s, k);
                        if k == id {
                            assert(key_of(s[i as int]) == k);
                        } else if m.contains_key(k) {
                            let j = choose|j: int| 0 <= j < old_s.len() && key_of(old_s[j]) == k;
                            assert(key_of(s[j]) == k);
                        }
                        if exists|j: int| 0 <= j < s.len() && key_of(s[j]) == k {
                            let j = choose|j: int| 0 <= j < s.len() && key_of(s[j]) == k;
                            if j != i {
                                assert(key_of(old_s[j]) == k);
                            }
                        }
                    }
                    assert forall|j: int| 0 <= j < s.len() implies #[trigger] m[key_of(s[j])]
                        == s[j] by {
                        if j != i {
                            lemma_to_map_index(old_s, j);
                            assert(key_of(old_s[i as int]) != key_of(old_s[j]));
                        }
                    }
                    lemma_to_map_ext(s, m);
                }
            },
            None => {
                self.entries.push(lsa);
                proof {
                    let s = self.entries();
                    assert(s =~= old_s.push(v));
                    assert(s.drop_last() =~= old_s);
                    assert forall|a: int, b: int| 0 <= a < b < s.len() implies key_of(s[a])
                        != key_of(s[b]) by {
                        if b == s.len() - 1 {
                            assert(s[a] == old_s[a]);
                        } else {
                            assert(s[a] == old_s[a] && s[b] == old_s[b]);
                        }
                    }
                }
            },
        }
    }

    /// Whether every LSA's age can grow by `delta` within 16 bits.
    pub fn can_age_by(&self, delta: u16) -> (r: bool)
        ensures
            r == forall|i: int| 0 <= i < self.entries().len() ==> #[trigger] self.entries()[i].header().age + delta <= u16::MAX,
    {
        let mut i: usize = 0;
        while i < self.entries.len()
            invariant
                i <= self.entries.len(),
                forall|j: int| 0 <= j < i ==> #[trigger] self.entries()[j].header().age + delta <= u16::MAX,
            decreases self.entries.len() - i,
        {
            let age = self.entries[i].copy_header().age;
            assert(self.entries()[i as int] == self.entries@[i as int]@);
            if age > u16::MAX - delta {
                return false;
            }
            i = i + 1;
        }
        true
    }

    /// Adds `delta` to the age of every LSA.
    pub fn age_by(&mut self, delta: u16)
        requires
            old(self).wf(),
            forall|i: int| 0 <= i < old(self).entries().len() ==> #[trigger] old(self).entries()[i].header().age + delta <= u16::MAX,
        ensures
            final(self).wf(),
            final(self).entries() == aged(old(self).entries(), delta),
            final(self)@ == old(self)@.map_values(|v: LsaView| older(v, delta)),
    {
        proof {
            lemma_aged_map(old(self).entries(), delta);
        }
        let ghost old_s = self.entries();
        let mut entries: Vec<Lsa> = Vec::new();
        let mut i: usize = 0;
        while i < self.entries.len()
            invariant
                i <= self.entries.len(),
                old_s == self.entries(),
                forall|j: int| 0 <= j < old_s.len() ==> #[trigger] old_s[j].header().age + delta <= u16::MAX,
                entries@.map_values(|l: Lsa| l@) == aged(old_s, delta).take(i as int),
            decreases self.entries.len() - i,
        {
            let mut l = self.entries[i].clone();
            assert(old_s[i as int] == self.entries@[i as int]@);
            let age = l.copy_header().age;
            l.set_age(age + delta);
            let ghost before = entries@.map_values(|l: Lsa| l@);
            assert(l@ == aged(old_s, delta)[i as int]);
            entries.push(l);
            assert(entries@.map_values(|l: Lsa| l@) == before.push(aged(old_s, delta)[i as int]));
            i = i + 1;
            assert(entries@.map_values(|l: Lsa| l@) =~= aged(old_s, delta).take(i as int));
        }
        self.entries = entries;
        assert(aged(old_s, delta).take(i as int) =~= aged(old_s, delta));
        assert forall|a: int, b: int| 0 <= a < b < self.entries().len() implies key_of(
            self.entries()[a],
        ) != key_of(self.entries()[b]) by {
            assert(key_of(self.entries()[a]) == key_of(old_s[a]));
            assert(key_of(self.entries()[b]) == key_of(old_s[b]));
        }
    }

    /// The headers of the LSAs in the order they are kept.
    pub fn headers(&self) -> (r: Vec<Header>)
        ensures
            r@ == self.entries().map_values(|v: LsaView| v.header()),
    {
        let mut r: Vec<Header> = Vec::new();
        let mut i: usize = 0;
        while i < self.entries.len()
            invariant
                i <= self.entries.len(),
                r@ == self.entries().map_values(|v: LsaView| v.header()).take(i as int),
            decreases self.entries.len() - i,
        {
            r.push(self.entries[i].copy_header());
            i = i + 1;
            assert(r@ =~= self.entries().map_values(|v: LsaView| v.header()).take(i as int));
        }
        assert(self.entries().map_values(|v: LsaView| v.header()).take(i as int)
            =~= self.entries().map_values(|v: LsaView| v.header()));
        r
    }

    /// Removes the LSA filed under `id`, if any.
    pub fn remove(&mut self, id: LsaIdentifer)
        requires
            old(self).wf(),
        ensures
            final(self).wf(),
            final(self)@ == old(self)@.remove(id),
    {
        let ghost old_s = self.entries();
        match self.find(id) {
            Some(i) => {
                self.entries.remove(i);
                proof {
                    let s = self.entries();
                    assert(s =~= old_s.remove(i as int));
                    assert forall|a: int, b: int| 0 <= a < b < s.len() implies key_of(s[a])
                        != key_of(s[b]) by {
                        let a2 = if a < i { a } else { a + 1 };
                        let b2 = if b < i { b } else { b + 1 };
                        assert(s[a] == old_s[a2] && s[b] == old_s[b2]);
                    }
                    let m = to_map(old_s).remove(id);
                    assert forall|k: LsaIdentifer| #[trigger] m.contains_key(k) <==> exists|j: int|
                        0 <= j < s.len() && key_of(s[j]) == k by {
                        lemma_to_map_contains(old_s, k);
                        if m.contains_key(k) {
                            let j = choose|j: int| 0 <= j < old_s.len() && key_of(old_s[j]) == k;
                            assert(j != i);
                            let j2 = if j < i { j } else { j - 1 };
                            assert(s[j2] == old_s[j]);
                        }
                        if exists|j: int| 0 <= j < s.len() && key_of(s[j]) == k {
                            let j = choose|j: int| 0 <= j < s.len() && key_of(s[j]) == k;
                            let j2 = if j < i { j } else { j + 1 };
                            assert(s[j] == old_s[j2]);
                            assert(j2 != i);
                        }
                    }
                    assert forall|j: int| 0 <= j < s.len() implies #[trigger] m[key_of(s[j])]
                        == s[j] by {
                        let j2 = if j < i { j } else { j + 1 };
                        assert(s[j] == old_s[j2]);
                        lemma_to_map_index(old_s, j2);
                    }
                    lemma_to_map_ext(s, m);
                }
            },
            None => {
                proof {
                    lemma_to_map_contains(old_s, id);
                    assert(to_map(old_s).remove(id) =~= to_map(old_s));
                }
            },
        }
    }
}

/// The link-state database of an area: its LSAs, one table for each kind.
pub struct LsaDb {
    pub router_lsa: LsaTable,
    pub network_lsa: LsaTable,
    pub summary_lsa: LsaTable,
    pub as_external_lsa: LsaTable,
}

/// A link-state database as four maps from identifiers to LSAs.
pub struct LsaDbView {
    pub router: Map<LsaIdentifer, LsaView>,
    pub network: Map<LsaIdentifer, LsaView>,
    pub summary: Map<LsaIdentifer, LsaView>,
    pub as_external: Map<LsaIdentifer, LsaView>,
}

impl View for LsaDb {
    type V = LsaDbView;

    open spec fn view(&self) -> LsaDbView {
        LsaDbView {
            router: self.router_lsa@,
            network: self.network_lsa@,
            summary: self.summary_lsa@,
            as_external: self.as_external_lsa@,
        }
    }
}

impl LsaDbView {
    /// The database with `v` filed under its identifier in the table of its kind.
    pub open spec fn insert(self, v: LsaView) -> LsaDbView {
        match v {
            LsaView::Router(_) => LsaDbView { router: self.router.insert(key_of(v), v), ..self },
            LsaView::Network(_) => LsaDbView { network: self.network.insert(key_of(v), v), ..self },
            LsaView::Summary(_) => LsaDbView { summary: self.summary.insert(key_of(v), v), ..self },
            LsaView::ASExternal(_) => LsaDbView {
                as_external: self.as_external.insert(key_of(v), v),
                ..self
            },
        }
    }

    /// The database with the LSAs of `vs` filed in turn.
    pub open spec fn insert_all(self, vs: Seq<LsaView>) -> LsaDbView
        decreases vs.len(),
    {
        if vs.len() == 0 {
            self
        } else {
            self.insert_all(vs.drop_last()).insert(vs.last())
        }
    }

    /// Whether some table holds an LSA filed under `id`.
    pub open spec fn contains(self, id: LsaIdentifer) -> bool {
        self.router.contains_key(id) || self.network.contains_key(id) || self.summary.contains_key(
            id,
        ) || self.as_external.contains_key(id)
    }

    /// The LSA filed under `id`, looked for in the router, network, summary and AS-external
    /// tables in that order.
    pub open spec fn lookup(self, id: LsaIdentifer) -> Option<LsaView> {
        if self.router.contains_key(id) {
            Some(self.router[id])
        } else if self.network.contains_key(id) {
            Some(self.network[id])
        } else if self.summary.contains_key(id) {
            Some(self.summary[id])
        } else if self.as_external.contains_key(id) {
            Some(self.as_external[id])
        } else {
            None
        }
    }

    /// The database with every LSA `delta` seconds older.
    pub open spec fn aged(self, delta: u16) -> LsaDbView {
        LsaDbView {
            router: self.router.map_values(|v: LsaView| older(v, delta)),
            network: self.network.map_values(|v: LsaView| older(v, delta)),
            summary: self.summary.map_values(|v: LsaView| older(v, delta)),
            as_external: self.as_external.map_values(|v: LsaView| older(v, delta)),
        }
    }

    /// The database with no LSA filed under `id` in any table.
    pub open spec fn remove(self, id: LsaIdentifer) -> LsaDbView {
        LsaDbView {
            router: self.router.remove(id),
            network: self.network.remove(id),
            summary: self.summary.remove(id),
            as_external: self.as_external.remove(id),
        }
    }

    /// Each table holds only LSAs of its kind, whose header type names that kind.
    pub open spec fn typed(self) -> bool {
        &&& forall|id| #[trigger] self.router.contains_key(id) ==> id.lsa_type == 1
        &&& forall|id| #[trigger] self.network.contains_key(id) ==> id.lsa_type == 2
        &&& forall|id| #[trigger] self.summary.contains_key(id) ==> id.lsa_type == 3
            || id.lsa_type == 4
        &&& forall|id| #[trigger] self.as_external.contains_key(id) ==> id.lsa_type == 5
    }
}

impl LsaDb {
    /// Every table files each identifier at most once.
    pub open spec fn wf(self) -> bool {
        &&& self.router_lsa.wf()
        &&& self.network_lsa.wf()
        &&& self.summary_lsa.wf()
        &&& self.as_external_lsa.wf()
    }

    pub fn empty() -> (r: Self)
        ensures
            r.wf(),
            r@ == (LsaDbView {
                router: Map::empty(),
                network: Map::empty(),
                summary: Map::empty(),
                as_external: Map::empty(),
            }),
    {
        Self {
            router_lsa: LsaTable::new(),
            network_lsa: LsaTable::new(),
            summary_lsa: LsaTable::new(),
            as_external_lsa: LsaTable::new(),
        }
    }

    /// Files each LSA of `lsas`, in turn, in the table of its kind under its identifier,
    /// replacing what was filed there.
    pub fn update_lsdb(&mut self, lsas: Vec<Lsa>)
        requires
            old(self).wf(),
        ensures
            final(self).wf(),
            final(self)@ == old(self)@.insert_all(lsas@.map_values(|l: Lsa| l@)),
    {
        let ghost vs = lsas@.map_values(|l: Lsa| l@);
        let ghost start = self@;
        let total = lsas.len();
        let mut lsas = lsas;
        let mut rest: Vec<Lsa> = Vec::new();
        // Take the LSAs off the back, then file them front to back.
        while lsas.len() > 0
            invariant
                lsas@.map_values(|l: Lsa| l@) + rest@.map_values(|l: Lsa| l@).reverse() == vs,
            decreases lsas.len(),
        {
            let l = lsas.pop().unwrap();
            let ghost before = rest@.map_values(|l: Lsa| l@);
            rest.push(l);
            assert(rest@.map_values(|l: Lsa| l@) == before.push(l@));
            assert(before.push(l@).reverse() =~= seq![l@] + before.reverse());
            assert(lsas@.map_values(|x: Lsa| x@).push(l@) + before.reverse() =~= lsas@.map_values(
                |x: Lsa| x@,
            ) + (seq![l@] + before.reverse()));
        }
        assert(lsas@.map_values(|l: Lsa| l@) =~= Seq::<LsaView>::empty());
        assert(rest@.map_values(|l: Lsa| l@).reverse() =~= vs);
        assert(rest@.map_values(|l: Lsa| l@).reverse().len() == rest.len());
        assert(vs.skip(0) =~= vs);
        assert(vs.take(0) =~= Seq::<LsaView>::empty());
        let mut done: usize = 0;
        while rest.len() > 0
            invariant
                self.wf(),
                done <= vs.len(),
                vs.len() == total,
                rest.len() + done == vs.len(),
                rest@.map_values(|l: Lsa| l@).reverse() == vs.skip(done as int),
                self@ == start.insert_all(vs.take(done as int)),
            decreases rest.len(),
        {
            let l = rest.pop().unwrap();
            let ghost lv = l@;
            proof {
                let r = rest@.map_values(|x: Lsa| x@);
                assert(r.push(lv).reverse() =~= seq![lv] + r.reverse());
                assert(vs.skip(done as int)[0] == lv);
                assert(vs.take(done + 1).drop_last() =~= vs.take(done as int));
                assert(vs.take(done + 1).last() == vs[done as int]);
                assert(vs.skip(done + 1) =~= vs.skip(done as int).drop_first());
            }
            match l {
                Lsa::Router(_) => self.router_lsa.insert(l),
                Lsa::Network(_) => self.network_lsa.insert(l),
                Lsa::Summary(_) => self.summary_lsa.insert(l),
                Lsa::ASExternal(_) => self.as_external_lsa.insert(l),
            }
            done = done + 1;
            proof {
                let r = rest@.map_values(|x: Lsa| x@);
                assert(r.reverse() =~= vs.skip(done as int));
            }
        }
        assert(vs.take(done as int) =~= vs);
    }

    pub fn contains_lsa(&self, lsa_id: LsaIdentifer) -> (r: bool)
        requires
            self.wf(),
        ensures
            r == self@.contains(lsa_id),
    {
        if self.router_lsa.contains(lsa_id) {
            return true;
        }
        if self.network_lsa.contains(lsa_id) {
            return true;
        }
        if self.summary_lsa.contains(lsa_id) {
            return true;
        }
        if self.as_external_lsa.contains(lsa_id) {
            return true;
        }
        false
    }

    /// Adds `inf_trans_delay` to the age of every LSA and returns their headers: those of the
    /// router, network, summary and AS-external tables, in that order.
    pub fn fetch_lsa_headers(&mut self, inf_trans_delay: u16) -> (r: Vec<Header>)
        requires
            old(self).wf(),
            old(self).ages_fit(inf_trans_delay),
        ensures
            final(self).wf(),
            final(self).router_lsa.entries() == aged(old(self).router_lsa.entries(), inf_trans_delay),
            final(self).network_lsa.entries() == aged(old(self).network_lsa.entries(), inf_trans_delay),
            final(self).summary_lsa.entries() == aged(old(self).summary_lsa.entries(), inf_trans_delay),
            final(self).as_external_lsa.entries() == aged(
                old(self).as_external_lsa.entries(),
                inf_trans_delay,
            ),
            final(self)@ == old(self)@.aged(inf_trans_delay),
            r@ == final(self).all_headers(),
    {
        self.age_by(inf_trans_delay);
        let mut headers = self.router_lsa.headers();
        let mut n = self.network_lsa.headers();
        headers.append(&mut n);
        let mut s = self.summary_lsa.headers();
        headers.append(&mut s);
        let mut a = self.as_external_lsa.headers();
        headers.append(&mut a);
        headers
    }

    /// Whether adding `delta` to the age of every LSA stays within 16 bits.
    pub open spec fn ages_fit(self, delta: u16) -> bool {
        &&& forall|i: int| 0 <= i < self.router_lsa.entries().len() ==> #[trigger] self.router_lsa.entries()[i].header().age + delta <= u16::MAX
        &&& forall|i: int| 0 <= i < self.network_lsa.entries().len() ==> #[trigger] self.network_lsa.entries()[i].header().age + delta <= u16::MAX
        &&& forall|i: int| 0 <= i < self.summary_lsa.entries().len() ==> #[trigger] self.summary_lsa.entries()[i].header().age + delta <= u16::MAX
        &&& forall|i: int| 0 <= i < self.as_external_lsa.entries().len() ==> #[trigger] self.as_external_lsa.entries()[i].header().age + delta <= u16::MAX
    }

    /// The headers of all LSAs: the router, network, summary and AS-external tables in that
    /// order, each in the order it keeps its LSAs.
    pub open spec fn all_headers(self) -> Seq<Header> {
        self.router_lsa.entries().map_values(|v: LsaView| v.header())
            + self.network_lsa.entries().map_values(|v: LsaView| v.header())
            + self.summary_lsa.entries().map_values(|v: LsaView| v.header())
            + self.as_external_lsa.entries().map_values(|v: LsaView| v.header())
    }

    /// Whether every LSA's age can grow by `delta` within 16 bits.
    pub fn can_age_by(&self, delta: u16) -> (r: bool)
        ensures
            r == self.ages_fit(delta),
    {
        self.router_lsa.can_age_by(delta) && self.network_lsa.can_age_by(delta)
            && self.summary_lsa.can_age_by(delta) && self.as_external_lsa.can_age_by(delta)
    }

    /// Adds `delta` to the age of every LSA.
    pub fn age_by(&mut self, delta: u16)
        requires
            old(self).wf(),
            old(self).ages_fit(delta),
        ensures
            final(self).wf(),
            final(self).router_lsa.entries() == aged(old(self).router_lsa.entries(), delta),
            final(self).network_lsa.entries() == aged(old(self).network_lsa.entries(), delta),
            final(self).summary_lsa.entries() == aged(old(self).summary_lsa.entries(), delta),
            final(self).as_external_lsa.entries() == aged(old(self).as_external_lsa.entries(), delta),
            final(self)@ == old(self)@.aged(delta),
    {
        self.router_lsa.age_by(delta);
        self.network_lsa.age_by(delta);
        self.summary_lsa.age_by(delta);
        self.as_external_lsa.age_by(delta);
    }

    /// The LSA filed under `lsa_id`, looked for in the router, network, summary and
    /// AS-external tables in that order.
    pub fn fetch_lsa(&self, lsa_id: LsaIdentifer) -> (r: Option<Lsa>)
        requires
            self.wf(),
        ensures
            match r {
                Some(l) => self@.lookup(lsa_id) == Some(l@),
                None => self@.lookup(lsa_id) is None,
            },
    {
        if let Some(l) = self.router_lsa.get(lsa_id) {
            return Some(l);
        }
        if let Some(l) = self.network_lsa.get(lsa_id) {
            return Some(l);
        }
        if let Some(l) = self.summary_lsa.get(lsa_id) {
            return Some(l);
        }
        if let Some(l) = self.as_external_lsa.get(lsa_id) {
            return Some(l);
        }
        None
    }

    /// Removes every LSA filed under `identifer`.
    pub fn remove_lsa(&mut self, identifer: LsaIdentifer)
        requires
            old(self).wf(),
        ensures
            final(self).wf(),
            final(self)@ == old(self)@.remove(identifer),
    {
        self.router_lsa.remove(identifer);
        self.network_lsa.remove(identifer);
        self.summary_lsa.remove(identifer);
        self.as_external_lsa.remove(identifer);
    }
}

/// What is filed is what is fetched: in a database whose tables hold only LSAs of their own
/// kind, filing a well-formed LSA makes the lookup of its identifier give that LSA, keeps every
/// table holding only its own kind, and leaves the lookup of every other identifier as it was.
pub proof fn lemma_insert_then_lookup(db: LsaDbView, v: LsaView, other: LsaIdentifer)
    requires
        db.typed(),
        v.well_formed(),
    ensures
        db.insert(v).lookup(key_of(v)) == Some(v),
        db.insert(v).typed(),
        other != key_of(v) ==> db.insert(v).lookup(other) == db.lookup(other),
        db.insert(v).contains(key_of(v)),
{
    let k = key_of(v);
    match v {
        LsaView::Router(_) => {},
        LsaView::Network(_) => {
            assert(!db.router.contains_key(k));
        },
        LsaView::Summary(_) => {
            assert(!db.router.contains_key(k));
            assert(!db.network.contains_key(k));
        },
        LsaView::ASExternal(_) => {
            assert(!db.router.contains_key(k));
            assert(!db.network.contains_key(k));
            assert(!db.summary.contains_key(k));
        },
    }
}

/// What is removed is gone: after removing an identifier no table holds it, and every other
/// identifier looks up as before.
pub proof fn lemma_remove_then_absent(db: LsaDbView, id: LsaIdentifer, other: LsaIdentifer)
    ensures
        !db.remove(id).contains(id),
        db.remove(id).lookup(id) is None,
        other != id ==> db.remove(id).lookup(other) == db.lookup(other),
{
}

/// Filing a list of well-formed LSAs into a database whose tables hold only their own kind
/// keeps it so, and afterwards the last LSA of the list is what its identifier looks up.
pub proof fn lemma_insert_all_typed(db: LsaDbView, vs: Seq<LsaView>)
    requires
        db.typed(),
        forall|i: int| 0 <= i < vs.len() ==> (#[trigger] vs[i]).well_formed(),
    ensures
        db.insert_all(vs).typed(),
        vs.len() > 0 ==> db.insert_all(vs).lookup(key_of(vs.last())) == Some(vs.last()),
    decreases vs.len(),
{
    if vs.len() > 0 {
        let p = vs.drop_last();
        assert forall|i: int| 0 <= i < p.len() implies (#[trigger] p[i]).well_formed() by {
            assert(p[i] == vs[i]);
        }
        lemma_insert_all_typed(db, p);
        lemma_insert_then_lookup(db.insert_all(p), vs.last(), key_of(vs.last()));
    }
}

/// The LSAs filed under each of `lsa_identifiers`, in that order; `None` where one of them is
/// filed nowhere.
pub fn fetch_lsas(lsdb: &LsaDb, lsa_identifiers: Vec<LsaIdentifer>) -> (r: Option<Vec<Lsa>>)
    requires
        lsdb.wf(),
    ensures
        match r {
            Some(ls) => (forall|i: int| 0 <= i < lsa_identifiers@.len() ==> lsdb@.contains(
                #[trigger] lsa_identifiers@[i],
            )) && ls@.map_values(|l: Lsa| l@) == lsa_identifiers@.map_values(
                |id: LsaIdentifer| lsdb@.lookup(id).unwrap(),
            ),
            None => exists|i: int| 0 <= i < lsa_identifiers@.len() && !lsdb@.contains(
                #[trigger] lsa_identifiers@[i],
            ),
        },
{
    let mut lsas: Vec<Lsa> = Vec::new();
    let mut i: usize = 0;
    while i < lsa_identifiers.len()
        invariant
            lsdb.wf(),
            i <= lsa_identifiers.len(),
            forall|j: int| 0 <= j < i ==> lsdb@.contains(#[trigger] lsa_identifiers@[j]),
            lsas@.map_values(|l: Lsa| l@) == lsa_identifiers@.map_values(
                |id: LsaIdentifer| lsdb@.lookup(id).unwrap(),
            ).take(i as int),
        decreases lsa_identifiers.len() - i,
    {
        let lsa_id = lsa_identifiers[i];
        if !lsdb.contains_lsa(lsa_id) {
            return None;
        }
        if let Some(lsa) = lsdb.fetch_lsa(lsa_id) {
            let ghost before = lsas@.map_values(|l: Lsa| l@);
            lsas.push(lsa);
            assert(lsas@.map_values(|l: Lsa| l@) == before.push(lsa@));
        } else {
            return None;
        }
        i = i + 1;
        assert(lsas@.map_values(|l: Lsa| l@) =~= lsa_identifiers@.map_values(
            |id: LsaIdentifer| lsdb@.lookup(id).unwrap(),
        ).take(i as int));
    }
    assert(lsa_identifiers@.map_values(|id: LsaIdentifer| lsdb@.lookup(id).unwrap()).take(i as int)
        =~= lsa_identifiers@.map_values(|id: LsaIdentifer| lsdb@.lookup(id).unwrap()));
    Some(lsas)
}

} // verus!
