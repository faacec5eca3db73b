//! Configurations as INI text: what `ini` parses becomes a configuration, and a
//! configuration becomes the document that `ini` writes out.

use vstd::prelude::*;
use vstd::string::StrSliceExecFns;
use crate::assoc::{
    ascending, extend, has_key, keys_of, lemma_ascending_distinct, lemma_extend_dom,
    lemma_extend_miss, lemma_extend_value, lemma_front_ascending, map_of,
};
use crate::adapter::{
    failure_of, has_section, ini_entries, ini_sections, new_ini, open_ini_section, parse_ini, parsed_ini,
    render_ini, rendered_ini, set_in_ini,
};
use crate::config::Config;
use crate::error::Error;
use crate::order::rank;
use crate::outcome::LoadOutcome;
use crate::store::Store;
use crate::values::ValueMap;

verus! {

impl Store {
    /// The store after the pairs of one section of a document have been merged in:
    /// a named section is created if need be, and of two pairs with one key the
    /// later one stays.
    pub open spec fn merge(self, section: Option<Seq<char>>, pairs: Seq<(Seq<char>, Seq<char>)>) -> Store {
        match section {
            Some(name) => Store {
                sections: self.sections.insert(name, extend(self.values_of(name), pairs)),
                ..self
            },
            None => Store { general: extend(self.general, pairs), ..self },
        }
    }

    /// The store that a document stands for: its sections merged in, one after
    /// the other, so that sections of one name add up.
    pub open spec fn of_document(
        sections: Seq<(Option<Seq<char>>, Seq<(Seq<char>, Seq<char>)>)>,
    ) -> Store
        decreases sections.len(),
    {
        if sections.len() == 0 {
            Store::empty()
        } else {
            Store::of_document(sections.drop_last()).merge(sections.last().0, sections.last().1)
        }
    }
}

/// Whether a document holds the general section first and behind it named
/// sections in ascending order of their names, each section with its pairs in
/// ascending order of their keys.
pub open spec fn in_order(document: Seq<(Option<Seq<char>>, Seq<(Seq<char>, Seq<char>)>)>) -> bool {
    &&& document.len() > 0
    &&& document[0].0 is None
    &&& forall|i: int| 1 <= i < document.len() ==> (#[trigger] document[i]).0 is Some
    &&& forall|i: int, j: int|
        1 <= i < j < document.len() ==> (#[trigger] rank(
            document[i].0->0,
            document[j].0->0,
        )) is Before
    &&& forall|i: int| 0 <= i < document.len() ==> ascending(keys_of((#[trigger] document[i]).1))
}

/// The general section followed by named sections of ascending names, all of
/// them with ascending keys, is a document in order.
proof fn lemma_document_in_order(
    general: Seq<(Seq<char>, Seq<char>)>,
    layout: Seq<(Seq<char>, Seq<(Seq<char>, Seq<char>)>)>,
)
    requires
        ascending(keys_of(general)),
        ascending(keys_of(layout)),
        forall|a: int| 0 <= a < layout.len() ==> ascending(keys_of((#[trigger] layout[a]).1)),
    ensures
        in_order(seq![(None::<Seq<char>>, general)] + named(layout)),
{
    let document = seq![(None::<Seq<char>>, general)] + named(layout);
    assert forall|a: int| 1 <= a < document.len() implies (#[trigger] document[a]).0 == Some(
        layout[a - 1].0,
    ) && document[a].1 == layout[a - 1].1 by {
        assert(document[a] == named(layout)[a - 1]);
    }
    assert forall|a: int, b: int| 1 <= a < b < document.len() implies (#[trigger] rank(
        document[a].0->0,
        document[b].0->0,
    )) is Before by {
        assert(rank(keys_of(layout)[a - 1], keys_of(layout)[b - 1]) is Before);
    }
}

/// Adds the pairs of `values`, in ascending key order, to the last section of the
/// document.
fn fill_ini_section(ini: &mut ini::Ini, section: Option<&str>, values: &ValueMap)
    requires
        ini_sections(*old(ini)).len() > 0,
        ini_sections(*old(ini)).last() == (
            section.deep_view(),
            Seq::<(Seq<char>, Seq<char>)>::empty(),
        ),
        !has_section(ini_sections(*old(ini)).drop_last(), section.deep_view()),
    ensures
        ini_sections(*final(ini)) == ini_sections(*old(ini)).drop_last().push(
            (section.deep_view(), values.pairs()),
        ),
        ascending(keys_of(values.pairs())),
{
    let ghost head = ini_sections(*ini).drop_last();
    let ghost pairs = values.pairs();
    proof {
        use_type_invariant(values);
        values.lemma_ordered();
        lemma_ascending_distinct(keys_of(pairs));
        assert(pairs.take(0) =~= Seq::<(Seq<char>, Seq<char>)>::empty());
        assert(ini_sections(*ini) =~= head.push(ini_sections(*ini).last()));
    }
    let count = values.len();
    let mut i: usize = 0;
    while i < count
        invariant
            0 <= i <= count,
            count == pairs.len(),
            pairs == values.pairs(),
            !has_section(head, section.deep_view()),
            ini_sections(*ini) == head.push((section.deep_view(), pairs.take(i as int))),
            forall|a: int, b: int|
                0 <= a < pairs.len() && 0 <= b < pairs.len() && a != b ==> #[trigger] keys_of(
                    pairs,
                )[a] != #[trigger] keys_of(pairs)[b],
        decreases count - i,
    {
        match values.nth(i) {
            Some((key, value)) => {
                proof {
                    let done = pairs.take(i as int);
                    assert(head.push((section.deep_view(), done)).drop_last() =~= head);
                    if has_key(done, key@) {
                        let a = choose|a: int| 0 <= a < done.len() && (#[trigger] done[a]).0 == key@;
                        assert(keys_of(pairs)[a] == keys_of(pairs)[i as int]);
                    }
                }
                set_in_ini(ini, section, key.as_str(), value.as_str());
                proof {
                    assert(pairs.take(i as int).push((key@, value@)) =~= pairs.take(i + 1));
                }
            },
            None => {},
        }
        i += 1;
    }
    proof {
        assert(pairs.take(count as int) =~= pairs);
    }
}

/// The text without the byte order mark that a file may start with.
pub fn without_byte_order_mark(text: &str) -> (r: &str)
    ensures
        r@ == if text@.len() > 0 && text@[0] == '\u{feff}' {
            text@.skip(1)
        } else {
            text@
        },
{
    let length = text.unicode_len();
    if length > 0 && text.get_char(0) == '\u{feff}' {
        let rest = text.substring_char(1, length);
        assert(rest@ =~= text@.skip(1));
        rest
    } else {
        text
    }
}

/// The pairs of a mapping as owned strings, in ascending key order.
fn pairs_of(values: &ValueMap) -> (r: Vec<(String, String)>)
    ensures
        r.deep_view() == values.pairs(),
        ascending(keys_of(values.pairs())),
{
    let ghost pairs = values.pairs();
    proof {
        use_type_invariant(values);
        values.lemma_ordered();
    }
    let mut out: Vec<(String, String)> = Vec::new();
    let count = values.len();
    let mut i: usize = 0;
    proof {
        assert(out.deep_view() =~= pairs.take(0));
    }
    while i < count
        invariant
            0 <= i <= count,
            count == pairs.len(),
            pairs == values.pairs(),
            out.deep_view() == pairs.take(i as int),
        decreases count - i,
    {
        let ghost before = out.deep_view();
        match values.nth(i) {
            Some((key, value)) => {
                out.push((key.clone(), value.clone()));
                proof {
                    assert(out.deep_view() =~= before.push((key@, value@)));
                    assert(pairs.take(i as int).push(pairs[i as int]) =~= pairs.take(i + 1));
                }
            },
            None => {},
        }
        i += 1;
    }
    proof {
        assert(pairs.take(count as int) =~= pairs);
    }
    out
}

impl Config {
    /// The document that stands for this configuration: the general section
    /// first, then each section in ascending order of the names, and in each
    /// of them the pairs in ascending order of the keys.
    pub open spec fn document(&self) -> Seq<(Option<Seq<char>>, Seq<(Seq<char>, Seq<char>)>)> {
        seq![(None::<Seq<char>>, self.general_values.pairs())] + named(self.sections.layout())
    }

    /// The whole configuration as its document: the general values first, then
    /// the sections in ascending order of their names, the pairs of each in
    /// ascending order of their keys.
    pub fn entries(&self) -> (r: Vec<(Option<String>, Vec<(String, String)>)>)
        ensures
            r.deep_view() == self.document(),
            in_order(self.document()),
    {
        let ghost document = self.document();
        let ghost layout = self.sections.layout();
        proof {
            use_type_invariant(&self.sections);
            self.sections.lemma_ordered();
        }
        let mut out: Vec<(Option<String>, Vec<(String, String)>)> = Vec::new();
        out.push((None, pairs_of(&self.general_values)));
        proof {
            assert(out.deep_view() =~= document.take(1));
        }
        let count = self.sections.len();
        let mut i: usize = 0;
        while i < count
            invariant
                0 <= i <= count,
                count == layout.len(),
                layout == self.sections.layout(),
                document == self.document(),
                out.deep_view() == document.take(i + 1),
                forall|a: int| 0 <= a < i ==> ascending(keys_of((#[trigger] layout[a]).1)),
            decreases count - i,
        {
            let ghost before = out.deep_view();
            match self.sections.nth(i) {
                Some((name, values)) => {
                    out.push((Some(name.clone()), pairs_of(values)));
                    proof {
                        assert(document[i + 1] == named(layout)[i as int]);
                        assert(out.deep_view() =~= before.push((Some(name@), values.pairs())));
                        assert(document.take(i + 1).push(document[i + 1]) =~= document.take(i + 2));
                    }
                },
                None => {},
            }
            i += 1;
        }
        proof {
            assert(document.take(count + 1) =~= document);
            lemma_document_in_order(self.general_values.pairs(), layout);
        }
        out
    }

    /// Builds the `ini` document of this configuration.
    fn to_ini(&self) -> (r: ini::Ini)
        ensures
            ini_sections(r) == self.document(),
            in_order(self.document()),
    {
        let mut ini = new_ini();
        proof {
            assert(ini_sections(ini).drop_last() =~= Seq::<
                (Option<Seq<char>>, Seq<(Seq<char>, Seq<char>)>),
            >::empty());
        }
        fill_ini_section(&mut ini, None, &self.general_values);
        let ghost general = (None::<Seq<char>>, self.general_values.pairs());
        let ghost layout = self.sections.layout();
        let ghost named = named(layout);
        proof {
            use_type_invariant(&self.sections);
            self.sections.lemma_ordered();
            lemma_ascending_distinct(keys_of(layout));
            assert(ini_sections(ini) =~= seq![general] + named.take(0));
        }
        let count = self.sections.len();
        let mut i: usize = 0;
        while i < count
            invariant
                0 <= i <= count,
                count == layout.len(),
                layout == self.sections.layout(),
                general.0 is None,
                named == crate::persist::named(layout),
                ini_sections(ini) == seq![general] + named.take(i as int),
                forall|a: int, b: int|
                    0 <= a < layout.len() && 0 <= b < layout.len() && a != b ==> #[trigger] keys_of(
                        layout,
                    )[a] != #[trigger] keys_of(layout)[b],
                forall|a: int| 0 <= a < i ==> ascending(keys_of((#[trigger] layout[a]).1)),
            decreases count - i,
        {
            match self.sections.nth(i) {
                Some((name, values)) => {
                    let ghost done = seq![general] + named.take(i as int);
                    proof {
                        assert(layout[i as int].0 == name@);
                        if has_section(done, Some(name@)) {
                            let a = choose|a: int|
                                0 <= a < done.len() && (#[trigger] done[a]).0 == Some(name@);
                            assert(done[0] == general);
                            assert(a >= 1);
                            assert(done[a] == named[a - 1]);
                            assert(keys_of(layout)[a - 1] == keys_of(layout)[i as int]);
                        }
                    }
                    open_ini_section(&mut ini, name.as_str());
                    proof {
                        assert(ini_sections(ini).drop_last() =~= done);
                    }
                    fill_ini_section(&mut ini, Some(name.as_str()), values);
                    proof {
                        assert(done.push((Some(name@), values.pairs())) =~= seq![general]
                            + named.take(i + 1));
                    }
                },
                None => {},
            }
            i += 1;
        }
        proof {
            assert(named.take(count as int) =~= named);
            lemma_document_in_order(self.general_values.pairs(), layout);
        }
        ini
    }

    /// The INI text of this configuration: the text that `ini` writes for
    /// [`Config::document`], which holds the general values first and then the
    /// sections in ascending order. The call succeeds for every configuration;
    /// the caller stores the text where it belongs.
    pub fn save(&self) -> (r: Result<String, Error>)
        ensures
            r matches Ok(text) && text@ == rendered_ini(self.document()),
            in_order(self.document()),
    {
        let ini = self.to_ini();
        match render_ini(&ini) {
            Ok(text) => Ok(text),
            Err(cause) => Err(Error::ConfigCreation(cause)),
        }
    }

    /// The configuration that a document stands for: the sections are merged in
    /// one after the other, a section without a name into the general values.
    pub fn from_entries(entries: &Vec<(Option<String>, Vec<(String, String)>)>) -> (r: Config)
        ensures
            r@ == Store::of_document(entries.deep_view()),
    {
        let ghost document = entries.deep_view();
        let mut config = Config::default();
        let mut i: usize = 0;
        proof {
            assert(document.take(0) =~= Seq::<
                (Option<Seq<char>>, Seq<(Seq<char>, Seq<char>)>),
            >::empty());
        }
        while i < entries.len()
            invariant
                0 <= i <= entries.len(),
                document == entries.deep_view(),
                config@ == Store::of_document(document.take(i as int)),
            decreases entries.len() - i,
        {
            let entry = &entries[i];
            let ghost before = config@;
            let ghost name = entry.0.deep_view();
            let ghost pairs = entry.1.deep_view();
            proof {
                assert(document[i as int] == (name, pairs));
                assert(document.take(i + 1).drop_last() =~= document.take(i as int));
                assert(pairs.take(0) =~= Seq::<(Seq<char>, Seq<char>)>::empty());
            }
            match &entry.0 {
                Some(title) => {
                    config.sections.open(title.as_str());
                },
                None => {},
            }
            assert(config@ == before.merge(name, pairs.take(0)));
            let mut j: usize = 0;
            while j < entry.1.len()
                invariant
                    0 <= j <= entry.1.len(),
                    name == entry.0.deep_view(),
                    pairs == entry.1.deep_view(),
                    config@ == before.merge(name, pairs.take(j as int)),
                decreases entry.1.len() - j,
            {
                let pair = &entry.1[j];
                proof {
                    assert(pairs[j as int] == (pair.0@, pair.1@));
                    assert(pairs.take(j + 1).drop_last() =~= pairs.take(j as int));
                }
                match &entry.0 {
                    Some(title) => {
                        config.sections.set(title.as_str(), pair.0.clone(), pair.1.clone());
                    },
                    None => {
                        config.general_values.insert(pair.0.clone(), pair.1.clone());
                    },
                }
                proof {
                    assert(config@.sections =~= before.merge(name, pairs.take(j + 1)).sections);
                    assert(config@.general =~= before.merge(name, pairs.take(j + 1)).general);
                }
                j += 1;
            }
            proof {
                assert(pairs.take(entry.1.len() as int) =~= pairs);
            }
            i += 1;
        }
        proof {
            assert(document.take(entries.len() as int) =~= document);
        }
        config
    }

    /// Reads a configuration out of INI text. The text is parsed by `ini`; where
    /// that succeeds the configuration is what [`Store::of_document`] makes of
    /// the parsed sections, and where it fails the failure is handed on.
    pub fn load(text: &str) -> (r: Result<Config, Error>)
        ensures
            match r {
                Ok(config) => parsed_ini(text@) matches Some(sections) && config@
                    == Store::of_document(sections),
                Err(e) => parsed_ini(text@) is None && e is ConfigLoad,
            },
    {
        match parse_ini(text) {
            Ok(ini) => {
                let entries = ini_entries(&ini);
                Ok(Config::from_entries(&entries))
            },
            Err(cause) => Err(Error::ConfigLoad(failure_of(cause))),
        }
    }

    /// The configuration read out of `text`, or `default` where there is no text
    /// (the source could not be read) or the text cannot be parsed.
    pub fn load_or_default(text: Option<&str>, default: Config) -> (r: Config)
        ensures
            match text {
                Some(t) => match parsed_ini(t@) {
                    Some(sections) => r@ == Store::of_document(sections),
                    None => r == default,
                },
                None => r == default,
            },
    {
        match text {
            Some(t) => match Config::load(t) {
                Ok(config) => config,
                Err(_) => default,
            },
            None => default,
        }
    }

    /// As [`Config::load_or_default`], and says which of the two it was.
    pub fn load_or_default_outcome(text: Option<&str>, default: Config) -> (r: LoadOutcome)
        ensures
            match text {
                Some(t) => match parsed_ini(t@) {
                    Some(sections) => r is FromFile && r.config()@ == Store::of_document(
                        sections,
                    ),
                    None => r == LoadOutcome::FromDefault(default),
                },
                None => r == LoadOutcome::FromDefault(default),
            },
    {
        match text {
            Some(t) => match Config::load(t) {
                Ok(config) => LoadOutcome::FromFile(config),
                Err(_) => LoadOutcome::FromDefault(default),
            },
            None => LoadOutcome::FromDefault(default),
        }
    }
}

/// After a section has been merged in, each of its keys has the value of the
/// last pair that holds it.
pub proof fn lemma_merge_sets(
    store: Store,
    section: Option<Seq<char>>,
    pairs: Seq<(Seq<char>, Seq<char>)>,
    i: int,
)
    requires
        0 <= i < pairs.len(),
        forall|j: int| i < j < pairs.len() ==> (#[trigger] pairs[j]).0 != pairs[i].0,
    ensures
        store.merge(section, pairs).get(section, pairs[i].0) == Some(pairs[i].1),
{
    match section {
        Some(name) => lemma_extend_value(store.values_of(name), pairs, i),
        None => lemma_extend_value(store.general, pairs, i),
    }
}

/// Merging a section in leaves the other sections as they were, and in the
/// section itself every value whose key the merged pairs do not hold.
pub proof fn lemma_merge_keeps(
    store: Store,
    section: Option<Seq<char>>,
    pairs: Seq<(Seq<char>, Seq<char>)>,
    other_section: Option<Seq<char>>,
    key: Seq<char>,
)
    requires
        other_section != section || !has_key(pairs, key),
    ensures
        store.merge(section, pairs).get(other_section, key) == store.get(other_section, key),
{
    if other_section == section {
        match section {
            Some(name) => lemma_extend_miss(store.values_of(name), pairs, key),
            None => lemma_extend_miss(store.general, pairs, key),
        }
    }
}

/// The named sections of a document, one for each section of a layout.
pub open spec fn named(layout: Seq<(Seq<char>, Seq<(Seq<char>, Seq<char>)>)>) -> Seq<
    (Option<Seq<char>>, Seq<(Seq<char>, Seq<char>)>),
> {
    layout.map_values(|s: (Seq<char>, Seq<(Seq<char>, Seq<char>)>)| (Some(s.0), s.1))
}

/// The sections of a layout, each with the values that its pairs stand for.
pub open spec fn valued(layout: Seq<(Seq<char>, Seq<(Seq<char>, Seq<char>)>)>) -> Seq<
    (Seq<char>, Map<Seq<char>, Seq<char>>),
> {
    layout.map_values(|s: (Seq<char>, Seq<(Seq<char>, Seq<char>)>)| (s.0, map_of(s.1)))
}

/// A document that holds the general section and then sections of ascending
/// names stands for the store with exactly these values and sections.
pub proof fn lemma_store_of_layout(
    general: Seq<(Seq<char>, Seq<char>)>,
    layout: Seq<(Seq<char>, Seq<(Seq<char>, Seq<char>)>)>,
)
    requires
        ascending(keys_of(layout)),
    ensures
        Store::of_document(seq![(None::<Seq<char>>, general)] + named(layout)) == (Store {
            sections: map_of(valued(layout)),
            general: map_of(general),
        }),
    decreases layout.len(),
{
    let first = seq![(None::<Seq<char>>, general)];
    let document = first + named(layout);
    if layout.len() == 0 {
        assert(document =~= first);
        assert(document.drop_last() =~= Seq::<
            (Option<Seq<char>>, Seq<(Seq<char>, Seq<char>)>),
        >::empty());
        assert(Store::of_document(document.drop_last()) == Store::empty());
        assert(map_of(valued(layout)) =~= Map::<Seq<char>, Map<Seq<char>, Seq<char>>>::empty());
    } else {
        let front = layout.drop_last();
        let last = layout.last();
        lemma_front_ascending(layout);
        lemma_store_of_layout(general, front);
        assert(document.drop_last() =~= first + named(front));
        assert(document.last() == (Some(last.0), last.1));
        assert(valued(layout).drop_last() =~= valued(front));
        assert(valued(layout).last() == (last.0, map_of(last.1)));
        lemma_extend_dom(Map::<Seq<char>, Map<Seq<char>, Seq<char>>>::empty(), valued(front));
        lemma_ascending_distinct(keys_of(layout));
        if has_key(valued(front), last.0) {
            let i = choose|i: int|
                0 <= i < valued(front).len() && (#[trigger] valued(front)[i]).0 == last.0;
            assert(keys_of(layout)[i] == keys_of(layout)[layout.len() - 1]);
        }
        assert(!map_of(valued(front)).contains_key(last.0));
    }
}

/// Reading back the document of a configuration gives the configuration: what
/// `save` hands to the writer holds everything that `load` needs.
pub proof fn lemma_document_restores(config: Config)
    requires
        config.sections.ordered(),
    ensures
        Store::of_document(config.document()) == config@,
{
    let layout = config.sections.layout();
    config.sections.lemma_ordered();
    lemma_store_of_layout(config.general_values.pairs(), layout);
    assert(valued(layout) =~= config.sections.pairs());
}

/// Saving and loading again gives the configuration back, wherever `ini` reads
/// the text that it wrote for the document as that same document.
pub proof fn lemma_round_trip(config: Config)
    requires
        config.sections.ordered(),
        parsed_ini(rendered_ini(config.document())) == Some(config.document()),
    ensures
        parsed_ini(rendered_ini(config.document())) matches Some(sections) && Store::of_document(
            sections,
        ) == config@,
{
    lemma_document_restores(config);
}

} // verus!
