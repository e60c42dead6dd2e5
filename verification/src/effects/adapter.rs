//! The registry of effect adapters: each adapter once by name, each target scheme served by
//! one adapter, and the choice of adapter for a request.
use vstd::prelude::*;
use crate::effects::effect::EffectRequest;
use crate::effects::{EffectAdapterCapabilities, EffectTarget};
use crate::error::Error;
use crate::sorted::{
    entries_map, find_key, has_key, insert_unique, keys_sorted, lemma_entries_at, lemma_entries_insert,
    lemma_entries_update,
};
use crate::text::{occurs_at, str_eq};

verus! {

/// The bytes of a name, by which names are ordered and compared.
pub open spec fn name_key(s: Seq<char>) -> Seq<u8> {
    vstd::utf8::encode_utf8(s)
}

/// Adapter names, each with the adapter's capabilities, and target schemes, each with the
/// name of the adapter that serves it.
pub struct EffectAdapterRegistry {
    adapters: Vec<(Vec<u8>, (String, EffectAdapterCapabilities))>,
    schemes: Vec<(Vec<u8>, String)>,
}

/// `m` after mapping each of `schemes`, in order, to `name`.
pub open spec fn map_schemes(m: Map<Seq<u8>, Seq<char>>, schemes: Seq<Seq<char>>, name: Seq<char>) -> Map<
    Seq<u8>,
    Seq<char>,
>
    decreases schemes.len(),
{
    if schemes.len() == 0 {
        m
    } else {
        map_schemes(m, schemes.drop_last(), name).insert(name_key(schemes.last()), name)
    }
}

/// Scheme `i` is already served once the schemes before it are mapped.
pub open spec fn scheme_taken(m: Map<Seq<u8>, Seq<char>>, schemes: Seq<Seq<char>>, name: Seq<char>, i: int) -> bool {
    map_schemes(m, schemes.take(i), name).contains_key(name_key(schemes[i]))
}

/// The first scheme that is already served, if any.
pub open spec fn first_taken(m: Map<Seq<u8>, Seq<char>>, schemes: Seq<Seq<char>>, name: Seq<char>) -> Option<int> {
    if exists|i: int| 0 <= i < schemes.len() && scheme_taken(m, schemes, name, i) {
        Some(
            choose|i: int|
                0 <= i < schemes.len() && scheme_taken(m, schemes, name, i) && forall|j: int|
                    0 <= j < i ==> !scheme_taken(m, schemes, name, j),
        )
    } else {
        None
    }
}

pub open spec fn already_registered_message(name: Seq<char>) -> Seq<char> {
    "Effect adapter "@ + name + " is already registered"@
}

pub open spec fn scheme_conflict_message(scheme: Seq<char>) -> Seq<char> {
    "Effect target scheme "@ + scheme + " has multiple adapters"@
}

pub open spec fn not_found_message(name: Seq<char>) -> Seq<char> {
    "Effect adapter "@ + name + " not found"@
}

pub open spec fn no_adapter_message() -> Seq<char> {
    "No adapter supports this effect target"@
}

/// The scheme of a target: the text before the first `://`, where there is one.
pub open spec fn uri_scheme(uri: Seq<char>) -> Option<Seq<char>> {
    if exists|i: int| occurs_at(uri, seq![':', '/', '/'], i) {
        Some(
            uri.subrange(
                0,
                choose|i: int|
                    occurs_at(uri, seq![':', '/', '/'], i) && forall|j: int|
                        0 <= j < i ==> !occurs_at(uri, seq![':', '/', '/'], j),
            ),
        )
    } else {
        None
    }
}

impl EffectAdapterRegistry {
    /// Each adapter's name and capabilities, by the name's bytes.
    pub closed spec fn adapter_map(&self) -> Map<Seq<u8>, (Seq<char>, EffectAdapterCapabilities)> {
        Map::new(
            |k: Seq<u8>| entries_map(self.adapters@).contains_key(k),
            |k: Seq<u8>| (entries_map(self.adapters@)[k].0@, entries_map(self.adapters@)[k].1),
        )
    }

    /// The adapter serving each scheme, by the scheme's bytes.
    pub closed spec fn scheme_map(&self) -> Map<Seq<u8>, Seq<char>> {
        Map::new(
            |k: Seq<u8>| entries_map(self.schemes@).contains_key(k),
            |k: Seq<u8>| entries_map(self.schemes@)[k]@,
        )
    }

    /// Entries are ordered by key, and an adapter is keyed by its name.
    pub closed spec fn wf(&self) -> bool {
        &&& keys_sorted(self.adapters@)
        &&& keys_sorted(self.schemes@)
        &&& forall|e: int| 0 <= e < self.adapters@.len() ==> (#[trigger] self.adapters@[e]).0@ == name_key(
            self.adapters@[e].1.0@,
        )
    }

    /// An empty registry.
    pub fn new() -> (r: Self)
        ensures
            r.wf(),
            r.adapter_map() == Map::<Seq<u8>, (Seq<char>, EffectAdapterCapabilities)>::empty(),
            r.scheme_map() == Map::<Seq<u8>, Seq<char>>::empty(),
    {
        let r = EffectAdapterRegistry { adapters: Vec::new(), schemes: Vec::new() };
        assert(r.adapter_map() =~= Map::<Seq<u8>, (Seq<char>, EffectAdapterCapabilities)>::empty());
        assert(r.scheme_map() =~= Map::<Seq<u8>, Seq<char>>::empty());
        r
    }

    /// Registers an adapter under `name` for `schemes`. A name already registered is
    /// refused and nothing changes. Otherwise the schemes are claimed in order; the first
    /// one already served is refused, after the schemes up to and including it were mapped
    /// to this adapter, and the adapter itself is not registered. When all schemes are free,
    /// the adapter is registered with its capabilities.
    pub fn register(&mut self, name: &str, schemes: &Vec<String>, capabilities: EffectAdapterCapabilities) -> (r: Result<
        (),
        Error,
    >)
        requires
            old(self).wf(),
        ensures
            final(self).wf(),
            ({
                let ss = schemes@.map_values(|s: String| s@);
                if old(self).adapter_map().contains_key(name_key(name@)) {
                    &&& (r matches Err(e) && e is InvalidInput && e.message_spec() == already_registered_message(name@))
                    &&& final(self).adapter_map() == old(self).adapter_map()
                    &&& final(self).scheme_map() == old(self).scheme_map()
                } else {
                    match first_taken(old(self).scheme_map(), ss, name@) {
                        Some(k) => {
                            &&& (r matches Err(e) && e is InvalidInput && e.message_spec() == scheme_conflict_message(ss[k]))
                            &&& final(self).adapter_map() == old(self).adapter_map()
                            &&& final(self).scheme_map() == map_schemes(old(self).scheme_map(), ss.take(k + 1), name@)
                        },
                        None => {
                            &&& r is Ok
                            &&& final(self).adapter_map() == old(self).adapter_map().insert(
                                name_key(name@),
                                (name@, capabilities),
                            )
                            &&& final(self).scheme_map() == map_schemes(old(self).scheme_map(), ss, name@)
                        },
                    }
                }
            }),
    {
        let key = name.as_bytes_vec();
        if let Some(e) = find_key(&self.adapters, key.as_slice()) {
            proof {
                lemma_entries_at(self.adapters@, e as int);
            }
            let mut message = String::from_str("Effect adapter ");
            message.append(name);
            message.append(" is already registered");
            return Err(Error::InvalidInput(message));
        }
        assert(!self.adapter_map().contains_key(name_key(name@)));
        let ghost ss = schemes@.map_values(|s: String| s@);
        let ghost start = self.scheme_map();
        let mut i: usize = 0;
        proof {
            assert(ss.take(0) =~= Seq::<Seq<char>>::empty());
        }
        while i < schemes.len()
            invariant
                i <= schemes@.len(),
                ss == schemes@.map_values(|s: String| s@),
                keys_sorted(self.schemes@),
                keys_sorted(self.adapters@),
                forall|e: int| 0 <= e < self.adapters@.len() ==> (#[trigger] self.adapters@[e]).0@ == name_key(
                    self.adapters@[e].1.0@,
                ),
                self.adapter_map() == old(self).adapter_map(),
                !self.adapter_map().contains_key(name_key(name@)),
                start == old(self).scheme_map(),
                self.scheme_map() == map_schemes(start, ss.take(i as int), name@),
                forall|j: int| 0 <= j < i ==> !scheme_taken(start, ss, name@, j),
            decreases schemes.len() - i,
        {
            let scheme = schemes[i].as_str();
            let skey = scheme.as_bytes_vec();
            let ghost before = self.schemes@;
            let ghost mapped = self.scheme_map();
            proof {
                assert(ss.take(i + 1).drop_last() =~= ss.take(i as int));
                assert(ss.take(i + 1).last() == scheme@);
                assert(ss[i as int] == scheme@);
            }
            match find_key(&self.schemes, skey.as_slice()) {
                Some(p) => {
                    proof {
                        lemma_entries_at(before, p as int);
                        assert(scheme_taken(start, ss, name@, i as int));
                    }
                    self.schemes.set(p, (skey, String::from_str(name)));
                    proof {
                        lemma_entries_update(before, p as int, self.schemes@[p as int].0, self.schemes@[p as int].1);
                        assert(self.scheme_map() =~= mapped.insert(name_key(scheme@), name@));
                        assert(first_taken(start, ss, name@) == Some(i as int)) by {
                            let k = choose|k: int|
                                0 <= k < ss.len() && scheme_taken(start, ss, name@, k) && forall|j: int|
                                    0 <= j < k ==> !scheme_taken(start, ss, name@, j);
                            if k < i {
                            } else if k > i {
                            }
                        }
                    }
                    let mut message = String::from_str("Effect target scheme ");
                    message.append(scheme);
                    message.append(" has multiple adapters");
                    return Err(Error::InvalidInput(message));
                },
                None => {
                    proof {
                        assert(!mapped.contains_key(name_key(scheme@)));
                        assert(!scheme_taken(start, ss, name@, i as int));
                    }
                    let item = String::from_str(name);
                    let ghost g_key = skey;
                    let ghost g_item = item;
                    insert_unique(&mut self.schemes, skey, item);
                    proof {
                        let p = choose|p: int| 0 <= p <= before.len() && self.schemes@ == before.insert(p, (g_key, g_item));
                        lemma_entries_insert(before, p, g_key, g_item);
                        assert(self.scheme_map() =~= mapped.insert(name_key(scheme@), name@));
                    }
                },
            }
            i = i + 1;
        }
        proof {
            assert(ss.take(i as int) =~= ss);
            assert(first_taken(start, ss, name@) is None);
        }
        let ghost before = self.adapters@;
        let ghost amap = self.adapter_map();
        let entry = (String::from_str(name), capabilities);
        let ghost g_key = key;
        let ghost g_entry = entry;
        insert_unique(&mut self.adapters, key, entry);
        proof {
            let p = choose|p: int| 0 <= p <= before.len() && self.adapters@ == before.insert(p, (g_key, g_entry));
            lemma_entries_insert(before, p, g_key, g_entry);
            assert forall|e: int| 0 <= e < self.adapters@.len() implies (#[trigger] self.adapters@[e]).0@ == name_key(
                self.adapters@[e].1.0@,
            ) by {
                if e < p {
                    assert(self.adapters@[e] == before[e]);
                } else if e > p {
                    assert(self.adapters@[e] == before[e - 1]);
                }
            }
            assert(self.adapter_map() =~= amap.insert(name_key(name@), (name@, capabilities)));
        }
        Ok(())
    }

    /// The capabilities of the adapter named `name`.
    pub fn get(&self, name: &str) -> (r: Result<EffectAdapterCapabilities, Error>)
        requires
            self.wf(),
        ensures
            self.adapter_map().contains_key(name_key(name@)) ==> r == Ok::<EffectAdapterCapabilities, Error>(
                self.adapter_map()[name_key(name@)].1,
            ),
            !self.adapter_map().contains_key(name_key(name@)) ==> (r matches Err(e) && e is NotFound
                && e.message_spec() == not_found_message(name@)),
    {
        let key = name.as_bytes_vec();
        match find_key(&self.adapters, key.as_slice()) {
            Some(e) => {
                proof {
                    lemma_entries_at(self.adapters@, e as int);
                }
                Ok(self.adapters[e].1.1)
            },
            None => {
                let mut message = String::from_str("Effect adapter ");
                message.append(name);
                message.append(" not found");
                Err(Error::NotFound(message))
            },
        }
    }

    /// The adapter for a request: the one it names, else the one serving its target's
    /// scheme. Refused when neither gives a name, or the name is not registered.
    pub fn select_request(&self, request: &EffectRequest) -> (r: Result<String, Error>)
        requires
            self.wf(),
        ensures
            ({
                let chosen = match request.adapter {
                    Some(a) => Some(a@),
                    None => match uri_scheme(request.target.uri@) {
                        Some(s) => if self.scheme_map().contains_key(name_key(s)) {
                            Some(self.scheme_map()[name_key(s)])
                        } else {
                            None
                        },
                        None => None,
                    },
                };
                match chosen {
                    None => (r matches Err(e) && e is InvalidInput && e.message_spec() == no_adapter_message()),
                    Some(n) => if self.adapter_map().contains_key(name_key(n)) {
                        (r matches Ok(s) && s@ == n)
                    } else {
                        (r matches Err(e) && e is NotFound && e.message_spec() == not_found_message(n))
                    },
                }
            }),
    {
        let name: String = match &request.adapter {
            Some(a) => a.clone(),
            None => {
                let scheme = request.target.scheme();
                proof {
                    match &scheme {
                        Some(s) => {
                            let i = choose|i: int|
                                occurs_at(request.target.uri@, seq![':', '/', '/'], i) && (forall|j: int|
                                    0 <= j < i ==> !occurs_at(request.target.uri@, seq![':', '/', '/'], j)) && s@
                                    == request.target.uri@.subrange(0, i);
                            let c = choose|c: int|
                                occurs_at(request.target.uri@, seq![':', '/', '/'], c) && forall|j: int|
                                    0 <= j < c ==> !occurs_at(request.target.uri@, seq![':', '/', '/'], j);
                            assert(c == i) by {
                                if c < i {
                                } else if c > i {
                                }
                            }
                            assert(uri_scheme(request.target.uri@) == Some(s@));
                        },
                        None => {},
                    }
                }
                match scheme {
                    Some(s) => {
                        let skey = s.as_str().as_bytes_vec();
                        match find_key(&self.schemes, skey.as_slice()) {
                            Some(p) => {
                                proof {
                                    lemma_entries_at(self.schemes@, p as int);
                                }
                                self.schemes[p].1.clone()
                            },
                            None => {
                                return Err(Error::InvalidInput(String::from_str("No adapter supports this effect target")));
                            },
                        }
                    },
                    None => {
                        return Err(Error::InvalidInput(String::from_str("No adapter supports this effect target")));
                    },
                }
            },
        };
        let key = name.as_str().as_bytes_vec();
        match find_key(&self.adapters, key.as_slice()) {
            Some(e) => {
                proof {
                    lemma_entries_at(self.adapters@, e as int);
                }
                Ok(name)
            },
            None => {
                let mut message = String::from_str("Effect adapter ");
                message.append(name.as_str());
                message.append(" not found");
                Err(Error::NotFound(message))
            },
        }
    }

    /// Every registered adapter's name and capabilities, in name order.
    pub fn capabilities(&self) -> (r: Vec<(String, EffectAdapterCapabilities)>)
        requires
            self.wf(),
        ensures
            forall|a: int, b: int| 0 <= a < b < r@.len() ==> crate::text::bytes_lt(
                name_key((#[trigger] r@[a]).0@),
                name_key((#[trigger] r@[b]).0@),
            ),
            forall|a: int| 0 <= a < r@.len() ==> self.adapter_map().contains_key(name_key((#[trigger] r@[a]).0@))
                && self.adapter_map()[name_key(r@[a].0@)] == (r@[a].0@, r@[a].1),
            forall|k: Seq<u8>| #[trigger] self.adapter_map().contains_key(k) ==> exists|a: int|
                0 <= a < r@.len() && name_key(r@[a].0@) == k,
    {
        let mut r: Vec<(String, EffectAdapterCapabilities)> = Vec::new();
        let mut i: usize = 0;
        while i < self.adapters.len()
            invariant
                i <= self.adapters@.len(),
                self.wf(),
                r@.len() == i,
                forall|a: int| 0 <= a < i ==> (#[trigger] r@[a]).0@ == self.adapters@[a].1.0@ && r@[a].1
                    == self.adapters@[a].1.1,
            decreases self.adapters.len() - i,
        {
            r.push((self.adapters[i].1.0.clone(), self.adapters[i].1.1));
            i = i + 1;
        }
        proof {
            assert forall|a: int, b: int| 0 <= a < b < r@.len() implies crate::text::bytes_lt(
                name_key((#[trigger] r@[a]).0@),
                name_key((#[trigger] r@[b]).0@),
            ) by {
                assert(self.adapters@[a].0@ == name_key(r@[a].0@));
                assert(self.adapters@[b].0@ == name_key(r@[b].0@));
            }
            assert forall|a: int| 0 <= a < r@.len() implies self.adapter_map().contains_key(
                name_key((#[trigger] r@[a]).0@),
            ) && self.adapter_map()[name_key(r@[a].0@)] == (r@[a].0@, r@[a].1) by {
                lemma_entries_at(self.adapters@, a);
                assert(self.adapters@[a].0@ == name_key(r@[a].0@));
            }
            assert forall|k: Seq<u8>| #[trigger] self.adapter_map().contains_key(k) implies exists|a: int|
                0 <= a < r@.len() && name_key(r@[a].0@) == k by {
                let e = choose|e: int| 0 <= e < self.adapters@.len() && (#[trigger] self.adapters@[e]).0@ == k;
                assert(name_key(r@[e].0@) == k);
            }
        }
        r
    }
}

} // verus!
