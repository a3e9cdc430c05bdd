//! Persisted settings: a structured document of keyed values, a
//! partial-update merge, and the effective configuration read from it.
//!
//! Saving settings applies at most the fields explicitly provided —
//! omitted fields are left untouched, and every key the update does not
//! name keeps its previous value. Values of kinds the bridge does not
//! interpret are carried through opaquely.

use vstd::prelude::*;

verus! {

/// A value held under a key of the settings document.
pub enum SettingsValue {
    /// A text value.
    Text(String),
    /// A boolean value.
    Flag(bool),
    /// A value of any other kind, carried opaquely in the serialized
    /// form the presentation layer chose.
    Raw(String),
}

/// The mathematical value of a settings value.
pub enum ValueV {
    TextV(Seq<char>),
    FlagV(bool),
    RawV(Seq<char>),
}

impl SettingsValue {
    /// The abstract value.
    pub open spec fn view_of(self) -> ValueV {
        match self {
            SettingsValue::Text(s) => ValueV::TextV(s@),
            SettingsValue::Flag(b) => ValueV::FlagV(b),
            SettingsValue::Raw(s) => ValueV::RawV(s@),
        }
    }
}

/// The value the document holds under `key`: the first (and, in a
/// well-formed document, only) entry with that key.
pub open spec fn spec_get(entries: Seq<(String, SettingsValue)>, key: Seq<char>) -> Option<ValueV>
    decreases entries.len(),
{
    if entries.len() == 0 {
        None
    } else if entries[0].0@ == key {
        Some(entries[0].1.view_of())
    } else {
        spec_get(entries.drop_first(), key)
    }
}

/// A settings document: keyed values in their persisted order.
pub struct SettingsDoc {
    pub entries: Vec<(String, SettingsValue)>,
}

impl SettingsDoc {
    /// Keys are unique.
    pub open spec fn wf(self) -> bool {
        forall|i: int, j: int|
            0 <= i < j < self.entries@.len() ==> self.entries@[i].0@ != self.entries@[j].0@
    }

    /// The value held under `key`, if any.
    pub open spec fn get_view(self, key: Seq<char>) -> Option<ValueV> {
        spec_get(self.entries@, key)
    }

    /// An empty document.
    pub fn new() -> (d: SettingsDoc)
        ensures
            d.wf(),
            d.entries@ == Seq::<(String, SettingsValue)>::empty(),
            forall|k: Seq<char>| #[trigger] d.get_view(k) is None,
    {
        SettingsDoc { entries: Vec::new() }
    }

    /// Read the value under a key.
    pub fn get(&self, key: &String) -> (r: Option<&SettingsValue>)
        ensures
            r is None ==> self.get_view(key@) is None,
            r is Some ==> self.get_view(key@) == Some(r->Some_0.view_of()),
    {
        proof {
            assert(self.entries@.skip(0) =~= self.entries@);
        }
        let mut i: usize = 0;
        while i < self.entries.len()
            invariant
                i <= self.entries@.len(),
                spec_get(self.entries@, key@) == spec_get(
                    self.entries@.skip(i as int),
                    key@,
                ),
                forall|j: int| 0 <= j < i ==> (#[trigger] self.entries@[j]).0@ != key@,
            decreases self.entries@.len() - i,
        {
            proof {
                lemma_spec_get_step(self.entries@, key@, i as int);
            }
            if self.entries[i].0 == *key {
                return Some(&self.entries[i].1);
            }
            i = i + 1;
        }
        proof {
            lemma_spec_get_step(self.entries@, key@, i as int);
        }
        None
    }

    /// Write a value under a key: the existing entry is replaced, or a
    /// new entry appended; every other key keeps its value.
    pub fn set(&mut self, key: String, value: SettingsValue)
        requires
            old(self).wf(),
        ensures
            final(self).wf(),
            final(self).get_view(key@) == Some(value.view_of()),
            forall|k: Seq<char>|
                k != key@ ==> #[trigger] final(self).get_view(k) == old(self).get_view(k),
    {
        let ghost s0 = self.entries@;
        proof {
            assert(self.entries@.skip(0) =~= self.entries@);
        }
        let mut i: usize = 0;
        while i < self.entries.len()
            invariant
                i <= self.entries@.len(),
                *self == *old(self),
                old(self).wf(),
                s0 == self.entries@,
                spec_get(self.entries@, key@) == spec_get(
                    self.entries@.skip(i as int),
                    key@,
                ),
                forall|j: int| 0 <= j < i ==> (#[trigger] self.entries@[j]).0@ != key@,
            decreases self.entries@.len() - i,
        {
            proof {
                lemma_spec_get_step(self.entries@, key@, i as int);
            }
            if self.entries[i].0 == key {
                let ghost si = i as int;
                let _replaced = self.entries.remove(i);
                let ghost e = (key, value);
                self.entries.insert(i, (key, value));
                proof {
                    assert(self.entries@ =~= s0.update(si, e));
                    lemma_spec_get_update(s0, si, e, key@);
                    assert forall|k: Seq<char>| k != key@ implies #[trigger] spec_get(
                        self.entries@,
                        k,
                    ) == spec_get(s0, k) by {
                        lemma_spec_get_update(s0, si, e, k);
                    }
                }
                return ;
            }
            i = i + 1;
        }
        proof {
            lemma_spec_get_step(self.entries@, key@, i as int);
        }
        let ghost e = (key, value);
        self.entries.push((key, value));
        proof {
            lemma_spec_get_push(s0, e, key@);
            assert forall|k: Seq<char>| k != key@ implies #[trigger] spec_get(self.entries@, k)
                == spec_get(s0, k) by {
                lemma_spec_get_push(s0, e, k);
            }
        }
    }
}

/// Unfolding `spec_get` at index `i`, when no earlier entry holds the key.
proof fn lemma_spec_get_step(entries: Seq<(String, SettingsValue)>, key: Seq<char>, i: int)
    requires
        0 <= i <= entries.len(),
    ensures
        i < entries.len() && entries[i].0@ == key ==> spec_get(entries.skip(i), key) == Some(
            entries[i].1.view_of(),
        ),
        i < entries.len() && entries[i].0@ != key ==> spec_get(entries.skip(i), key) == spec_get(
            entries.skip(i + 1),
            key,
        ),
        i == entries.len() ==> spec_get(entries.skip(i), key) is None,
{
    if i < entries.len() {
        assert(entries.skip(i)[0] == entries[i]);
        assert(entries.skip(i).drop_first() =~= entries.skip(i + 1));
    }
}

/// Replacing the entry at `i` (whose key no earlier entry shares)
/// changes the lookup of that key alone.
proof fn lemma_spec_get_update(
    entries: Seq<(String, SettingsValue)>,
    i: int,
    e: (String, SettingsValue),
    k: Seq<char>,
)
    requires
        0 <= i < entries.len(),
        forall|j: int| 0 <= j < i ==> (#[trigger] entries[j]).0@ != entries[i].0@,
        e.0@ == entries[i].0@,
    ensures
        spec_get(entries.update(i, e), k) == if k == entries[i].0@ {
            Some(e.1.view_of())
        } else {
            spec_get(entries, k)
        },
    decreases i,
{
    let u = entries.update(i, e);
    if i == 0 {
        assert(u[0] == e);
        if k != e.0@ {
            assert(u.drop_first() =~= entries.drop_first());
        }
    } else {
        assert(u[0] == entries[0]);
        if k == entries[0].0@ {
            assert(entries[0].0@ != entries[i].0@);
        } else {
            let rest = entries.drop_first();
            assert(u.drop_first() =~= rest.update(i - 1, e));
            assert forall|j: int| 0 <= j < i - 1 implies (#[trigger] rest[j]).0@ != rest[i - 1].0@
                by {
                assert(rest[j] == entries[j + 1]);
            }
            assert(rest[i - 1] == entries[i]);
            lemma_spec_get_update(rest, i - 1, e, k);
        }
    }
}

/// Appending an entry changes the lookup only of a key not yet present.
proof fn lemma_spec_get_push(
    entries: Seq<(String, SettingsValue)>,
    e: (String, SettingsValue),
    k: Seq<char>,
)
    ensures
        spec_get(entries.push(e), k) == if spec_get(entries, k) is Some {
            spec_get(entries, k)
        } else if k == e.0@ {
            Some(e.1.view_of())
        } else {
            None
        },
    decreases entries.len(),
{
    let p = entries.push(e);
    assert(p.len() == entries.len() + 1);
    if entries.len() == 0 {
        assert(p[0] == e);
        if k == e.0@ {
            assert(spec_get(p, k) == Some(e.1.view_of()));
        } else {
            assert(p.drop_first() =~= Seq::<(String, SettingsValue)>::empty());
            assert(spec_get(Seq::<(String, SettingsValue)>::empty(), k) is None);
            assert(spec_get(p, k) is None);
        }
    } else {
        assert(p[0] == entries[0]);
        if k == entries[0].0@ {
            assert(spec_get(p, k) == Some(entries[0].1.view_of()));
            assert(spec_get(entries, k) == Some(entries[0].1.view_of()));
        } else {
            assert(p.drop_first() =~= entries.drop_first().push(e));
            lemma_spec_get_push(entries.drop_first(), e, k);
            assert(spec_get(p, k) == spec_get(entries.drop_first().push(e), k));
            assert(spec_get(entries, k) == spec_get(entries.drop_first(), k));
        }
    }
}

/// The settings a save call provides: each field is applied only when
/// it is set.
pub struct FrontendSettings {
    pub model: Option<String>,
    pub disable_response_storage: Option<bool>,
    pub hide_agent_reasoning: Option<bool>,
}

/// Partial-update law, in the contract: each provided field is written
/// under its key, each omitted field's key keeps its previous value,
/// and every key the update does not name keeps its previous value.
pub fn save_settings(doc: &mut SettingsDoc, settings: &FrontendSettings)
    requires
        old(doc).wf(),
    ensures
        final(doc).wf(),
        settings.model is Some ==> final(doc).get_view("model"@) == Some(
            ValueV::TextV(settings.model->0@),
        ),
        settings.model is None ==> final(doc).get_view("model"@) == old(doc).get_view("model"@),
        settings.disable_response_storage is Some ==> final(doc).get_view(
            "disable_response_storage"@,
        ) == Some(ValueV::FlagV(settings.disable_response_storage->0)),
        settings.disable_response_storage is None ==> final(doc).get_view(
            "disable_response_storage"@,
        ) == old(doc).get_view("disable_response_storage"@),
        settings.hide_agent_reasoning is Some ==> final(doc).get_view("hide_agent_reasoning"@)
            == Some(ValueV::FlagV(settings.hide_agent_reasoning->0)),
        settings.hide_agent_reasoning is None ==> final(doc).get_view("hide_agent_reasoning"@)
            == old(doc).get_view("hide_agent_reasoning"@),
        forall|k: Seq<char>|
            k != "model"@ && k != "disable_response_storage"@ && k != "hide_agent_reasoning"@
                ==> #[trigger] final(doc).get_view(k) == old(doc).get_view(k),
{
    proof {
        reveal_strlit("model");
        reveal_strlit("disable_response_storage");
        reveal_strlit("hide_agent_reasoning");
        assert("model"@.len() == 5);
        assert("disable_response_storage"@.len() == 24);
        assert("hide_agent_reasoning"@.len() == 20);
        assert("model"@ != "disable_response_storage"@);
        assert("model"@ != "hide_agent_reasoning"@);
        assert("disable_response_storage"@ != "hide_agent_reasoning"@);
    }
    if let Some(m) = &settings.model {
        doc.set("model".to_owned(), SettingsValue::Text(m.clone()));
    }
    if let Some(d) = &settings.disable_response_storage {
        doc.set("disable_response_storage".to_owned(), SettingsValue::Flag(*d));
    }
    if let Some(h) = &settings.hide_agent_reasoning {
        doc.set("hide_agent_reasoning".to_owned(), SettingsValue::Flag(*h));
    }
}

} // verus!
