//! The registry of torrent providers, keyed by provider name.
use vstd::prelude::*;
use crate::text::{chars_of, chars_eq};
use crate::order::{strictly_sorted, views_of, insert_sorted};

verus! {

/// A torrent / resource provider, identified by its name. The searches
/// themselves are carried out by the application around this library.
pub trait TorrentProvider {
    /// The provider's name.
    spec fn spec_name(&self) -> Seq<char>;

    /// Provider name used for identification and routing.
    fn name(&self) -> (r: &str)
        ensures
            r@ == self.spec_name();
}

impl TorrentProvider for crate::mikan::Mikan {
    open spec fn spec_name(&self) -> Seq<char> {
        "Mikan"@
    }

    fn name(&self) -> (r: &str) {
        "Mikan"
    }
}

impl TorrentProvider for crate::dmhy::Dmhy {
    open spec fn spec_name(&self) -> Seq<char> {
        "DMHY"@
    }

    fn name(&self) -> (r: &str) {
        "DMHY"
    }
}

impl TorrentProvider for crate::nyaa::Nyaa {
    open spec fn spec_name(&self) -> Seq<char> {
        "Nyaa"@
    }

    fn name(&self) -> (r: &str) {
        "Nyaa"
    }
}

/// One of the torrent sources this library knows.
pub enum AnyProvider {
    Mikan(crate::mikan::Mikan),
    Dmhy(crate::dmhy::Dmhy),
    Nyaa(crate::nyaa::Nyaa),
}

impl TorrentProvider for AnyProvider {
    open spec fn spec_name(&self) -> Seq<char> {
        match self {
            AnyProvider::Mikan(p) => p.spec_name(),
            AnyProvider::Dmhy(p) => p.spec_name(),
            AnyProvider::Nyaa(p) => p.spec_name(),
        }
    }

    fn name(&self) -> (r: &str) {
        match self {
            AnyProvider::Mikan(p) => p.name(),
            AnyProvider::Dmhy(p) => p.name(),
            AnyProvider::Nyaa(p) => p.name(),
        }
    }
}

/// Registering a provider makes `get` of its name give it, and leaves every
/// other name where it was.
pub proof fn law_register_then_get<P: TorrentProvider>(m: Map<Seq<char>, P>, p: P, other: Seq<char>)
    requires
        other != p.spec_name(),
    ensures
        m.insert(p.spec_name(), p).contains_key(p.spec_name()),
        m.insert(p.spec_name(), p)[p.spec_name()] == p,
        m.insert(p.spec_name(), p).contains_key(other) == m.contains_key(other),
        m.contains_key(other) ==> m.insert(p.spec_name(), p)[other] == m[other],
{
}

/// Registering a provider twice is registering it once, and the listed
/// names gain exactly its name.
pub proof fn law_register_twice<P: TorrentProvider>(m: Map<Seq<char>, P>, p: P)
    ensures
        m.insert(p.spec_name(), p).insert(p.spec_name(), p) == m.insert(p.spec_name(), p),
        m.insert(p.spec_name(), p).dom() == m.dom().insert(p.spec_name()),
{
    assert(m.insert(p.spec_name(), p).insert(p.spec_name(), p) =~= m.insert(p.spec_name(), p));
    assert(m.insert(p.spec_name(), p).dom() =~= m.dom().insert(p.spec_name()));
}

/// The first provider in `ps` with name `name`.
pub open spec fn find_named<P: TorrentProvider>(ps: Seq<P>, name: Seq<char>) -> Option<P>
    decreases ps.len(),
{
    if ps.len() == 0 {
        None
    } else if ps[0].spec_name() == name {
        Some(ps[0])
    } else {
        find_named(ps.drop_first(), name)
    }
}

pub open spec fn names_of<P: TorrentProvider>(ps: Seq<P>) -> Seq<Seq<char>> {
    ps.map_values(|p: P| p.spec_name())
}

pub open spec fn distinct_names<P: TorrentProvider>(ps: Seq<P>) -> bool {
    forall|i: int, j: int| 0 <= i < j < ps.len() ==> (#[trigger] ps[i]).spec_name() != (#[trigger] ps[j]).spec_name()
}

proof fn lemma_find_named_index<P: TorrentProvider>(ps: Seq<P>, name: Seq<char>, i: int)
    requires
        0 <= i < ps.len(),
        ps[i].spec_name() == name,
        forall|j: int| 0 <= j < i ==> (#[trigger] ps[j]).spec_name() != name,
    ensures
        find_named(ps, name) == Some(ps[i]),
    decreases i,
{
    if i > 0 {
        assert forall|j: int| 0 <= j < i - 1 implies (#[trigger] ps.drop_first()[j]).spec_name() != name by {
            assert(ps.drop_first()[j] == ps[j + 1]);
        }
        lemma_find_named_index(ps.drop_first(), name, i - 1);
    }
}

proof fn lemma_find_named_none<P: TorrentProvider>(ps: Seq<P>, name: Seq<char>)
    requires
        forall|j: int| 0 <= j < ps.len() ==> (#[trigger] ps[j]).spec_name() != name,
    ensures
        find_named(ps, name) is None,
    decreases ps.len(),
{
    if ps.len() > 0 {
        assert forall|j: int| 0 <= j < ps.drop_first().len() implies (#[trigger] ps.drop_first()[j]).spec_name() != name by {
            assert(ps.drop_first()[j] == ps[j + 1]);
        }
        lemma_find_named_none(ps.drop_first(), name);
    }
}

/// The provider that each name leads to.
pub open spec fn providers_map<P: TorrentProvider>(ps: Seq<P>) -> Map<Seq<char>, P> {
    Map::new(|n: Seq<char>| find_named(ps, n) is Some, |n: Seq<char>| find_named(ps, n)->Some_0)
}

proof fn lemma_find_named_some_iff<P: TorrentProvider>(ps: Seq<P>, n: Seq<char>)
    ensures
        find_named(ps, n) is Some <==> names_of(ps).contains(n),
    decreases ps.len(),
{
    if ps.len() > 0 {
        lemma_find_named_some_iff(ps.drop_first(), n);
        if names_of(ps.drop_first()).contains(n) {
            let k = choose|k: int| 0 <= k < names_of(ps.drop_first()).len() && names_of(ps.drop_first())[k] == n;
            assert(names_of(ps)[k + 1] == n);
        }
        if names_of(ps).contains(n) {
            let k = choose|k: int| 0 <= k < names_of(ps).len() && names_of(ps)[k] == n;
            if k > 0 {
                assert(names_of(ps.drop_first())[k - 1] == n);
            }
        }
        if ps[0].spec_name() == n {
            assert(names_of(ps)[0] == n);
        }
    }
}

/// Registered torrent providers, at most one per name.
pub struct TorrentProviderState<P: TorrentProvider> {
    providers: Vec<P>,
}

impl<P: TorrentProvider> View for TorrentProviderState<P> {
    type V = Map<Seq<char>, P>;

    closed spec fn view(&self) -> Map<Seq<char>, P> {
        providers_map(self.providers@)
    }
}

impl<P: TorrentProvider> TorrentProviderState<P> {
    #[verifier::type_invariant]
    spec fn names_distinct(self) -> bool {
        distinct_names(self.providers@)
    }

    /// An empty registry.
    pub fn new() -> (r: Self)
        ensures
            r@ == Map::<Seq<char>, P>::empty(),
    {
        let r = TorrentProviderState { providers: Vec::new() };
        assert(providers_map(r.providers@) =~= Map::<Seq<char>, P>::empty());
        r
    }

    fn position(&self, name: &str) -> (r: Option<usize>)
        ensures
            r matches Some(i) ==> i < self.providers@.len() && self.providers@[i as int].spec_name() == name@
                && forall|j: int| 0 <= j < i ==> (#[trigger] self.providers@[j]).spec_name() != name@,
            r is None ==> forall|j: int| 0 <= j < self.providers@.len() ==> (#[trigger] self.providers@[j]).spec_name() != name@,
    {
        let key = chars_of(name);
        let mut i: usize = 0;
        while i < self.providers.len()
            invariant
                i <= self.providers@.len(),
                key@ == name@,
                forall|j: int| 0 <= j < i ==> (#[trigger] self.providers@[j]).spec_name() != name@,
            decreases self.providers@.len() - i,
        {
            let n = chars_of(self.providers[i].name());
            if chars_eq(&n, &key) {
                return Some(i);
            }
            i = i + 1;
        }
        None
    }

    /// Registers a provider under its name, replacing any provider already
    /// registered under that name.
    pub fn register(&mut self, provider: P)
        ensures
            final(self)@ == old(self)@.insert(provider.spec_name(), provider),
    {
        proof {
            use_type_invariant(&*self);
        }
        let ghost old_ps = self.providers@;
        let ghost key = provider.spec_name();
        let name = chars_of(provider.name());
        let s = crate::text::string_of(&name);
        match self.position(s.as_str()) {
            Some(i) => {
                let mut ps = Vec::new();
                std::mem::swap(&mut ps, &mut self.providers);
                ps.set(i, provider);
                let ghost new_ps = ps@;
                assert(new_ps =~= old_ps.update(i as int, provider));
                assert forall|a: int, b: int| 0 <= a < b < new_ps.len() implies (#[trigger] new_ps[a]).spec_name() != (#[trigger] new_ps[b]).spec_name() by {
                    if a != i && b != i {
                        assert(new_ps[a] == old_ps[a] && new_ps[b] == old_ps[b]);
                    } else if a == i {
                        assert(new_ps[b] == old_ps[b]);
                        assert(old_ps[a].spec_name() == key);
                    } else {
                        assert(new_ps[a] == old_ps[a]);
                        assert(old_ps[b].spec_name() == key);
                    }
                }
                proof {
                    lemma_find_named_index(new_ps, key, i as int);
                    assert forall|n: Seq<char>| n != key implies #[trigger] find_named(new_ps, n) == find_named(old_ps, n) by {
                        lemma_find_named_same(old_ps, new_ps, n, i as int, provider);
                    }
                    assert(names_of(new_ps) =~= names_of(old_ps));
                    assert(names_of(old_ps).contains(key)) by {
                        assert(names_of(old_ps)[i as int] == key);
                    }
                    assert(names_of(old_ps).to_set().insert(key) =~= names_of(old_ps).to_set());
                    assert(providers_map(new_ps) =~= providers_map(old_ps).insert(key, provider));
                }
                self.providers = ps;
            },
            None => {
                let mut ps = Vec::new();
                std::mem::swap(&mut ps, &mut self.providers);
                ps.push(provider);
                let ghost new_ps = ps@;
                assert(new_ps =~= old_ps.push(provider));
                assert forall|a: int, b: int| 0 <= a < b < new_ps.len() implies (#[trigger] new_ps[a]).spec_name() != (#[trigger] new_ps[b]).spec_name() by {
                    if b < old_ps.len() {
                        assert(new_ps[a] == old_ps[a] && new_ps[b] == old_ps[b]);
                    } else {
                        assert(new_ps[a] == old_ps[a]);
                    }
                }
                proof {
                    assert forall|j: int| 0 <= j < old_ps.len() implies (#[trigger] new_ps[j]).spec_name() != key by {
                        assert(new_ps[j] == old_ps[j]);
                    }
                    lemma_find_named_index(new_ps, key, old_ps.len() as int);
                    assert forall|n: Seq<char>| n != key implies #[trigger] find_named(new_ps, n) == find_named(old_ps, n) by {
                        lemma_find_named_push(old_ps, n, provider);
                    }
                    assert(names_of(new_ps) =~= names_of(old_ps).push(key));
                    crate::order::lemma_push_to_set(names_of(old_ps), key);
                    assert(providers_map(new_ps) =~= providers_map(old_ps).insert(key, provider));
                }
                self.providers = ps;
            },
        }
    }

    /// The provider registered under `name`.
    pub fn get(&self, name: &str) -> (r: Option<&P>)
        ensures
            match r {
                Some(p) => self@.contains_key(name@) && self@[name@] == *p,
                None => !self@.contains_key(name@),
            },
    {
        match self.position(name) {
            Some(i) => {
                proof {
                    lemma_find_named_index(self.providers@, name@, i as int);
                }
                Some(&self.providers[i])
            },
            None => {
                proof {
                    lemma_find_named_none(self.providers@, name@);
                }
                None
            },
        }
    }

    /// All registered provider names, sorted.
    pub fn list_providers(&self) -> (r: Vec<String>)
        ensures
            strictly_sorted(crate::torrent_provider::strings_view(r@)),
            crate::torrent_provider::strings_view(r@).to_set() == self@.dom(),
    {
        let mut sorted: Vec<Vec<char>> = Vec::new();
        let mut i: usize = 0;
        assert(views_of(sorted@).to_set() =~= names_of(self.providers@).subrange(0, 0).to_set());
        while i < self.providers.len()
            invariant
                i <= self.providers@.len(),
                strictly_sorted(views_of(sorted@)),
                views_of(sorted@).to_set() == names_of(self.providers@).subrange(0, i as int).to_set(),
            decreases self.providers@.len() - i,
        {
            let n = chars_of(self.providers[i].name());
            insert_sorted(&mut sorted, n);
            assert(names_of(self.providers@).subrange(0, i + 1) =~= names_of(self.providers@).subrange(0, i as int).push(self.providers@[i as int].spec_name()));
            proof {
                crate::order::lemma_push_to_set(names_of(self.providers@).subrange(0, i as int), self.providers@[i as int].spec_name());
            }
            i = i + 1;
        }
        assert(names_of(self.providers@).subrange(0, i as int) =~= names_of(self.providers@));
        let mut out: Vec<String> = Vec::new();
        let mut k: usize = 0;
        while k < sorted.len()
            invariant
                k <= sorted@.len(),
                crate::torrent_provider::strings_view(out@) == views_of(sorted@).subrange(0, k as int),
            decreases sorted@.len() - k,
        {
            let t = crate::text::string_of(&sorted[k]);
            assert(t@ == views_of(sorted@)[k as int]);
            let ghost prev = crate::torrent_provider::strings_view(out@);
            out.push(t);
            assert(crate::torrent_provider::strings_view(out@) =~= prev.push(t@));
            assert(views_of(sorted@).subrange(0, k + 1) =~= views_of(sorted@).subrange(0, k as int).push(views_of(sorted@)[k as int]));
            k = k + 1;
            assert(crate::torrent_provider::strings_view(out@) =~= views_of(sorted@).subrange(0, k as int));
        }
        assert(views_of(sorted@).subrange(0, k as int) =~= views_of(sorted@));
        proof {
            assert forall|n: Seq<char>| names_of(self.providers@).to_set().contains(n) == self@.dom().contains(n) by {
                lemma_find_named_some_iff(self.providers@, n);
            }
            assert(names_of(self.providers@).to_set() =~= self@.dom());
        }
        out
    }

    /// The provider registered under `name`, or the message that there is
    /// none.
    pub fn provider_for(&self, name: &str) -> (r: Result<&P, String>)
        ensures
            match r {
                Ok(p) => self@.contains_key(name@) && self@[name@] == *p,
                Err(m) => !self@.contains_key(name@) && m@ == "Torrent provider not found: "@ + name@,
            },
    {
        match self.get(name) {
            Some(p) => Ok(p),
            None => {
                let mut v = chars_of("Torrent provider not found: ");
                crate::text::push_all(&mut v, &chars_of(name));
                proof {
                    reveal_strlit("Torrent provider not found: ");
                }
                Err(crate::text::string_of(&v))
            },
        }
    }
}

impl<P: TorrentProvider> Default for TorrentProviderState<P> {
    fn default() -> (r: Self)
        ensures
            r@ == Map::<Seq<char>, P>::empty(),
    {
        TorrentProviderState::new()
    }
}

proof fn lemma_find_named_same<P: TorrentProvider>(old_ps: Seq<P>, new_ps: Seq<P>, n: Seq<char>, i: int, p: P)
    requires
        0 <= i < old_ps.len(),
        new_ps == old_ps.update(i, p),
        old_ps[i].spec_name() != n,
        p.spec_name() != n,
    ensures
        find_named(new_ps, n) == find_named(old_ps, n),
    decreases old_ps.len(),
{
    if old_ps.len() > 0 {
        if i > 0 {
            assert(new_ps.drop_first() =~= old_ps.drop_first().update(i - 1, p));
            lemma_find_named_same(old_ps.drop_first(), new_ps.drop_first(), n, i - 1, p);
        } else {
            assert(new_ps.drop_first() =~= old_ps.drop_first());
        }
    }
}

proof fn lemma_find_named_push<P: TorrentProvider>(ps: Seq<P>, n: Seq<char>, p: P)
    requires
        p.spec_name() != n,
    ensures
        find_named(ps.push(p), n) == find_named(ps, n),
    decreases ps.len(),
{
    if ps.len() == 0 {
        assert(ps.push(p).drop_first() =~= Seq::<P>::empty());
    } else {
        assert(ps.push(p).drop_first() =~= ps.drop_first().push(p));
        assert(ps.push(p)[0] == ps[0]);
        lemma_find_named_push(ps.drop_first(), n, p);
        if ps[0].spec_name() == n {
            assert(find_named(ps.push(p), n) == Some(ps[0]));
        } else {
            assert(find_named(ps.push(p), n) == find_named(ps.push(p).drop_first(), n));
            assert(find_named(ps, n) == find_named(ps.drop_first(), n));
        }
    }
}

} // verus!
