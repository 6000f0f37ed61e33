//! Shared client state: who we are, which topic is shown, and the address book of
//! the personas that peers go by.
use vstd::prelude::*;

verus! {

/// The persona this client speaks as.
#[derive(Debug, Clone)]
pub struct CurrentPersona(pub String);

impl CurrentPersona {
    /// The given persona; a persona must be given (no name is made up).
    pub fn new(persona: Option<String>) -> (r: Self)
        requires
            persona is Some,
        ensures
            r.0@ == persona.unwrap()@,
    {
        match persona {
            Some(p) => CurrentPersona(p),
            None => CurrentPersona(String::new()),
        }
    }
}

/// The chat topic shown.
#[derive(Debug, Clone)]
pub struct CurrentTopic(pub String);

impl CurrentTopic {
    pub fn new(topic: String) -> (r: Self)
        ensures
            r.0@ == topic@,
    {
        CurrentTopic(topic)
    }

    /// The topic's name.
    pub fn name(&self) -> (r: &String)
        ensures
            r@ == self.0@,
    {
        &self.0
    }
}

/// The map that a list of (key, value) pairs gives; later pairs win.
pub open spec fn pair_map<V>(s: Seq<(Seq<char>, V)>) -> Map<Seq<char>, V>
    decreases s.len(),
{
    if s.len() == 0 {
        Map::empty()
    } else {
        pair_map(s.drop_last()).insert(s.last().0, s.last().1)
    }
}

/// No key occurs twice.
pub open spec fn unique_keys<V>(s: Seq<(Seq<char>, V)>) -> bool {
    forall|i: int, j: int| 0 <= i < j < s.len() ==> #[trigger] s[i].0 != #[trigger] s[j].0
}

pub proof fn lemma_pair_map_index<V>(s: Seq<(Seq<char>, V)>, i: int)
    requires
        unique_keys(s),
        0 <= i < s.len(),
    ensures
        pair_map(s).contains_key(s[i].0),
        pair_map(s)[s[i].0] == s[i].1,
    decreases s.len(),
{
    if i < s.len() - 1 {
        assert(s.drop_last()[i] == s[i]);
        assert(unique_keys(s.drop_last())) by {
            assert forall|a: int, b: int| 0 <= a < b < s.drop_last().len() implies #[trigger] s.drop_last()[a].0
                != #[trigger] s.drop_last()[b].0 by {
                assert(s.drop_last()[a] == s[a]);
                assert(s.drop_last()[b] == s[b]);
            }
        }
        lemma_pair_map_index(s.drop_last(), i);
        assert(s[i].0 != s.last().0);
    }
}

pub proof fn lemma_pair_map_absent<V>(s: Seq<(Seq<char>, V)>, k: Seq<char>)
    requires
        forall|i: int| 0 <= i < s.len() ==> #[trigger] s[i].0 != k,
    ensures
        !pair_map(s).contains_key(k),
    decreases s.len(),
{
    if s.len() > 0 {
        assert forall|i: int| 0 <= i < s.drop_last().len() implies #[trigger] s.drop_last()[i].0 != k by {
            assert(s.drop_last()[i] == s[i]);
        }
        lemma_pair_map_absent(s.drop_last(), k);
        assert(s[s.len() - 1].0 != k);
    }
}

pub proof fn lemma_pair_map_update<V>(s: Seq<(Seq<char>, V)>, i: int, v: V)
    requires
        unique_keys(s),
        0 <= i < s.len(),
    ensures
        pair_map(s.update(i, (s[i].0, v))) == pair_map(s).insert(s[i].0, v),
        unique_keys(s.update(i, (s[i].0, v))),
    decreases s.len(),
{
    let t = s.update(i, (s[i].0, v));
    assert(unique_keys(t)) by {
        assert forall|a: int, b: int| 0 <= a < b < t.len() implies #[trigger] t[a].0 != #[trigger] t[b].0 by {
            assert(t[a].0 == s[a].0);
            assert(t[b].0 == s[b].0);
        }
    }
    if i == s.len() - 1 {
        assert(t.drop_last() =~= s.drop_last());
        assert(pair_map(t) =~= pair_map(s).insert(s[i].0, v));
    } else {
        let d = s.drop_last();
        assert(unique_keys(d)) by {
            assert forall|a: int, b: int| 0 <= a < b < d.len() implies #[trigger] d[a].0 != #[trigger] d[b].0 by {
                assert(d[a] == s[a]);
                assert(d[b] == s[b]);
            }
        }
        assert(d[i] == s[i]);
        lemma_pair_map_update(d, i, v);
        assert(t.drop_last() =~= d.update(i, (d[i].0, v)));
        assert(s[i].0 != s.last().0);
        assert(pair_map(t) =~= pair_map(s).insert(s[i].0, v));
    }
}

/// A copy of a vector of strings.
pub fn clone_strings(v: &Vec<String>) -> (r: Vec<String>)
    ensures
        r@ == v@,
{
    let mut r: Vec<String> = Vec::new();
    let mut i: usize = 0;
    while i < v.len()
        invariant
            i <= v.len(),
            r@ == v@.take(i as int),
        decreases v.len() - i,
    {
        r.push(v[i].clone());
        i = i + 1;
        proof {
            assert(r@ =~= v@.take(i as int));
        }
    }
    proof {
        assert(v@.take(i as int) =~= v@);
    }
    r
}

/// The mathematical value of an `AddressBook`.
pub struct AddressBookView {
    /// Every persona each peer has been seen with.
    pub personas: Map<Seq<char>, Set<Seq<char>>>,
    /// The persona each peer is shown as.
    pub persona: Map<Seq<char>, Seq<char>>,
}

impl AddressBookView {
    /// The book after meeting `peer` as `persona`: the persona joins the peer's set,
    /// and becomes the peer's shown persona where asked and where it has none yet.
    pub open spec fn inserted(self, peer: Seq<char>, persona: Seq<char>, update_default: bool) -> AddressBookView {
        let old_set = if self.personas.contains_key(peer) {
            self.personas[peer]
        } else {
            Set::empty()
        };
        AddressBookView {
            personas: self.personas.insert(peer, old_set.insert(persona)),
            persona: if update_default && !self.persona.contains_key(peer) {
                self.persona.insert(peer, persona)
            } else {
                self.persona
            },
        }
    }
}

/// Meeting a peer never changes the persona a peer is already shown as.
pub proof fn lemma_shown_persona_kept(
    book: AddressBookView,
    peer: Seq<char>,
    persona: Seq<char>,
    update_default: bool,
    other: Seq<char>,
)
    requires
        book.persona.contains_key(other),
    ensures
        book.inserted(peer, persona, update_default).persona.contains_key(other),
        book.inserted(peer, persona, update_default).persona[other] == book.persona[other],
{
}

/// After meeting a peer with `update_default`, the peer is shown as a persona: the
/// one met, unless it was already shown as another.
pub proof fn lemma_met_peer_is_known(book: AddressBookView, peer: Seq<char>, persona: Seq<char>)
    ensures
        book.inserted(peer, persona, true).persona.contains_key(peer),
        !book.persona.contains_key(peer) ==> book.inserted(peer, persona, true).persona[peer] == persona,
{
}

/// Every persona a peer was met with stays recorded, and the one just met is added.
pub proof fn lemma_personas_grow(
    book: AddressBookView,
    peer: Seq<char>,
    persona: Seq<char>,
    update_default: bool,
    other: Seq<char>,
    name: Seq<char>,
)
    requires
        book.personas.contains_key(other),
        book.personas[other].contains(name),
    ensures
        book.inserted(peer, persona, update_default).personas[other].contains(name),
        book.inserted(peer, persona, update_default).personas[peer].contains(persona),
{
}

/// The personas that peers go by, keyed by peer id.
#[derive(Debug, Clone)]
pub struct AddressBook {
    personas_by_peer_id: Vec<(String, Vec<String>)>,
    persona_by_peer_id: Vec<(String, String)>,
}

pub open spec fn string_set(v: Seq<String>) -> Set<Seq<char>> {
    v.map_values(|s: String| s@).to_set()
}

pub open spec fn set_entries(v: Seq<(String, Vec<String>)>) -> Seq<(Seq<char>, Set<Seq<char>>)> {
    v.map_values(|e: (String, Vec<String>)| (e.0@, string_set(e.1@)))
}

pub open spec fn name_entries(v: Seq<(String, String)>) -> Seq<(Seq<char>, Seq<char>)> {
    v.map_values(|e: (String, String)| (e.0@, e.1@))
}

impl View for AddressBook {
    type V = AddressBookView;

    closed spec fn view(&self) -> AddressBookView {
        AddressBookView {
            personas: pair_map(set_entries(self.personas_by_peer_id@)),
            persona: pair_map(name_entries(self.persona_by_peer_id@)),
        }
    }
}

impl AddressBook {
    /// Each peer is listed once in each table.
    pub closed spec fn wf(&self) -> bool {
        unique_keys(set_entries(self.personas_by_peer_id@)) && unique_keys(
            name_entries(self.persona_by_peer_id@),
        )
    }

    /// An empty book.
    pub fn new() -> (r: Self)
        ensures
            r.wf(),
            r@.personas == Map::<Seq<char>, Set<Seq<char>>>::empty(),
            r@.persona == Map::<Seq<char>, Seq<char>>::empty(),
    {
        let r = AddressBook { personas_by_peer_id: Vec::new(), persona_by_peer_id: Vec::new() };
        proof {
            assert(set_entries(r.personas_by_peer_id@) =~= Seq::empty());
            assert(name_entries(r.persona_by_peer_id@) =~= Seq::empty());
        }
        r
    }

    /// A book holding the given tables: each peer's personas, and each peer's shown persona.
    pub fn from_parts(personas: Vec<(String, Vec<String>)>, defaults: Vec<(String, String)>) -> (r: Self)
        requires
            unique_keys(set_entries(personas@)),
            unique_keys(name_entries(defaults@)),
        ensures
            r.wf(),
            r@.personas == pair_map(set_entries(personas@)),
            r@.persona == pair_map(name_entries(defaults@)),
    {
        AddressBook { personas_by_peer_id: personas, persona_by_peer_id: defaults }
    }

    /// The book's tables: each peer's personas, and each peer's shown persona.
    pub fn to_parts(&self) -> (r: (Vec<(String, Vec<String>)>, Vec<(String, String)>))
        ensures
            pair_map(set_entries(r.0@)) == self@.personas,
            pair_map(name_entries(r.1@)) == self@.persona,
    {
        let mut a: Vec<(String, Vec<String>)> = Vec::new();
        let mut i: usize = 0;
        while i < self.personas_by_peer_id.len()
            invariant
                i <= self.personas_by_peer_id.len(),
                set_entries(a@) == set_entries(self.personas_by_peer_id@.take(i as int)),
            decreases self.personas_by_peer_id.len() - i,
        {
            let e = &self.personas_by_peer_id[i];
            let ghost before = a@;
            let entry = (e.0.clone(), clone_strings(&e.1));
            a.push(entry);
            i = i + 1;
            proof {
                assert(set_entries(a@) =~= set_entries(before).push((entry.0@, string_set(entry.1@))));
                assert(self.personas_by_peer_id@.take(i as int) =~= self.personas_by_peer_id@.take(i - 1).push(
                    self.personas_by_peer_id@[i - 1],
                ));
                assert(set_entries(self.personas_by_peer_id@.take(i as int)) =~= set_entries(
                    self.personas_by_peer_id@.take(i - 1),
                ).push((e.0@, string_set(e.1@))));
            }
        }
        let mut b: Vec<(String, String)> = Vec::new();
        let mut j: usize = 0;
        while j < self.persona_by_peer_id.len()
            invariant
                j <= self.persona_by_peer_id.len(),
                b@ == self.persona_by_peer_id@.take(j as int),
            decreases self.persona_by_peer_id.len() - j,
        {
            let e = &self.persona_by_peer_id[j];
            b.push((e.0.clone(), e.1.clone()));
            j = j + 1;
            proof {
                assert(b@ =~= self.persona_by_peer_id@.take(j as int));
            }
        }
        proof {
            assert(self.personas_by_peer_id@.take(i as int) =~= self.personas_by_peer_id@);
            assert(self.persona_by_peer_id@.take(j as int) =~= self.persona_by_peer_id@);
        }
        (a, b)
    }

    fn find_default(&self, peer: &String) -> (r: Option<usize>)
        requires
            self.wf(),
        ensures
            match r {
                Some(i) => i < self.persona_by_peer_id@.len() && self.persona_by_peer_id@[i as int].0@
                    == peer@,
                None => forall|i: int|
                    0 <= i < self.persona_by_peer_id@.len() ==> #[trigger] name_entries(
                        self.persona_by_peer_id@,
                    )[i].0 != peer@,
            },
    {
        let mut i: usize = 0;
        while i < self.persona_by_peer_id.len()
            invariant
                i <= self.persona_by_peer_id.len(),
                forall|j: int| 0 <= j < i ==> #[trigger] name_entries(self.persona_by_peer_id@)[j].0 != peer@,
            decreases self.persona_by_peer_id.len() - i,
        {
            if self.persona_by_peer_id[i].0 == *peer {
                return Some(i);
            }
            i = i + 1;
        }
        None
    }

    fn find_personas(&self, peer: &String) -> (r: Option<usize>)
        requires
            self.wf(),
        ensures
            match r {
                Some(i) => i < self.personas_by_peer_id@.len() && self.personas_by_peer_id@[i as int].0@
                    == peer@,
                None => forall|i: int|
                    0 <= i < self.personas_by_peer_id@.len() ==> #[trigger] set_entries(
                        self.personas_by_peer_id@,
                    )[i].0 != peer@,
            },
    {
        let mut i: usize = 0;
        while i < self.personas_by_peer_id.len()
            invariant
                i <= self.personas_by_peer_id.len(),
                forall|j: int| 0 <= j < i ==> #[trigger] set_entries(self.personas_by_peer_id@)[j].0 != peer@,
            decreases self.personas_by_peer_id.len() - i,
        {
            if self.personas_by_peer_id[i].0 == *peer {
                return Some(i);
            }
            i = i + 1;
        }
        None
    }

    /// The persona the peer is shown as, if it has one.
    pub fn get(&self, key: &String) -> (r: Option<String>)
        requires
            self.wf(),
        ensures
            self@.persona.contains_key(key@) ==> (r matches Some(p) && p@ == self@.persona[key@]),
            !self@.persona.contains_key(key@) ==> r is None,
    {
        match self.find_default(key) {
            Some(i) => {
                proof {
                    lemma_pair_map_index(name_entries(self.persona_by_peer_id@), i as int);
                }
                Some(self.persona_by_peer_id[i].1.clone())
            },
            None => {
                proof {
                    lemma_pair_map_absent(name_entries(self.persona_by_peer_id@), key@);
                }
                None
            },
        }
    }

    /// Whether the peer has a persona to be shown as.
    pub fn is_known(&self, key: &String) -> (r: bool)
        requires
            self.wf(),
        ensures
            r == self@.persona.contains_key(key@),
    {
        match self.find_default(key) {
            Some(i) => {
                proof {
                    lemma_pair_map_index(name_entries(self.persona_by_peer_id@), i as int);
                }
                true
            },
            None => {
                proof {
                    lemma_pair_map_absent(name_entries(self.persona_by_peer_id@), key@);
                }
                false
            },
        }
    }

    /// Records that `peer` goes by `persona`; with `update_default`, the persona is
    /// also shown for the peer unless it already has one.
    pub fn insert(&mut self, peer: String, persona: String, update_default: bool)
        requires
            old(self).wf(),
        ensures
            final(self).wf(),
            final(self)@ == old(self)@.inserted(peer@, persona@, update_default),
    {
        let ghost old_view = self@;
        if update_default {
            match self.find_default(&peer) {
                Some(i) => {
                    proof {
                        lemma_pair_map_index(name_entries(self.persona_by_peer_id@), i as int);
                    }
                },
                None => {
                    proof {
                        lemma_pair_map_absent(name_entries(self.persona_by_peer_id@), peer@);
                    }
                    let ghost before = self.persona_by_peer_id@;
                    self.persona_by_peer_id.push((peer.clone(), persona.clone()));
                    proof {
                        let e = name_entries(self.persona_by_peer_id@);
                        assert(e =~= name_entries(before).push((peer@, persona@)));
                        assert(e.drop_last() =~= name_entries(before));
                        assert(unique_keys(e)) by {
                            assert forall|a: int, b: int| 0 <= a < b < e.len() implies #[trigger] e[a].0
                                != #[trigger] e[b].0 by {
                                if b == e.len() - 1 {
                                    assert(e[a] == name_entries(before)[a]);
                                } else {
                                    assert(e[a] == name_entries(before)[a]);
                                    assert(e[b] == name_entries(before)[b]);
                                }
                            }
                        }
                    }
                },
            }
        }
        let ghost mid_persona = self@.persona;
        assert(mid_persona == old_view.inserted(peer@, persona@, update_default).persona);
        match self.find_personas(&peer) {
            Some(i) => {
                let ghost before = self.personas_by_peer_id@;
                proof {
                    lemma_pair_map_index(set_entries(before), i as int);
                }
                let mut set = self.personas_by_peer_id[i].1.clone();
                proof {
                    assert(set@ =~= before[i as int].1@);
                }
                let ghost set_before = set@;
                let mut present = false;
                let mut j: usize = 0;
                while j < set.len()
                    invariant
                        j <= set.len(),
                        present ==> set@.map_values(|s: String| s@).contains(persona@),
                    decreases set.len() - j,
                {
                    if set[j] == persona {
                        present = true;
                        proof {
                            assert(set@.map_values(|s: String| s@)[j as int] == persona@);
                        }
                    }
                    j = j + 1;
                }
                if !present {
                    set.push(persona);
                }
                proof {
                    let mv = set@.map_values(|s: String| s@);
                    let mb = set_before.map_values(|s: String| s@);
                    if present {
                        assert(mv.to_set() =~= mb.to_set().insert(persona@));
                    } else {
                        assert(mv =~= mb.push(persona@));
                        assert(mv.to_set() =~= mb.to_set().insert(persona@)) by {
                            assert forall|x: Seq<char>| mv.to_set().contains(x) <==> mb.to_set().insert(
                                persona@,
                            ).contains(x) by {
                                if mv.contains(x) {
                                    let k = choose|k: int| 0 <= k < mv.len() && mv[k] == x;
                                    if k < mb.len() {
                                        assert(mb[k] == x);
                                    }
                                }
                                if mb.contains(x) {
                                    let k = choose|k: int| 0 <= k < mb.len() && mb[k] == x;
                                    assert(mv[k] == x);
                                }
                                if x == persona@ {
                                    assert(mv[mb.len() as int] == x);
                                }
                            }
                        }
                    }
                }
                let key = self.personas_by_peer_id[i].0.clone();
                let ghost new_entry = (key, set);
                self.personas_by_peer_id.set(i, (key, set));
                proof {
                    assert(set_entries(self.personas_by_peer_id@) =~= set_entries(before).update(
                        i as int,
                        (set_entries(before)[i as int].0, string_set(set@)),
                    ));
                    lemma_pair_map_update(set_entries(before), i as int, string_set(set@));
                }
            },
            None => {
                proof {
                    lemma_pair_map_absent(set_entries(self.personas_by_peer_id@), peer@);
                }
                let ghost before = self.personas_by_peer_id@;
                let set = vec![persona];
                self.personas_by_peer_id.push((peer, set));
                proof {
                    let e = set_entries(self.personas_by_peer_id@);
                    assert(e.drop_last() =~= set_entries(before));
                    assert(string_set(set@) =~= Set::<Seq<char>>::empty().insert(persona@)) by {
                        let mv = set@.map_values(|s: String| s@);
                        assert(mv =~= seq![persona@]);
                        assert forall|x: Seq<char>| mv.to_set().contains(x) <==> x == persona@ by {
                            if x == persona@ {
                                assert(mv[0] == x);
                            }
                        }
                    }
                    assert(unique_keys(e)) by {
                        assert forall|a: int, b: int| 0 <= a < b < e.len() implies #[trigger] e[a].0
                            != #[trigger] e[b].0 by {
                            assert(e[a] == set_entries(before)[a]);
                            if b < e.len() - 1 {
                                assert(e[b] == set_entries(before)[b]);
                            }
                        }
                    }
                }
            },
        }
        proof {
            assert(self@.personas =~= old_view.inserted(peer@, persona@, update_default).personas);
        }
    }
}

} // verus!
