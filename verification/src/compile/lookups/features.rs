//! Features and scripts: which lookups make up which feature, and which
//! features are active under which script and language.

use vstd::prelude::*;

use crate::compile::lookups::{
    gpos_indices, gsub_indices, Builder, FeatureKey, LookupId, PositionLookup, SubstitutionLookup,
};
use crate::compile::tables;
use crate::compile::tables::{
    feature_records_view, lang_sys_view, script_record_view, script_records_view, FeatureRecord,
    LangSys, LangSysRecord, LangSysView, LayoutTable, Script, ScriptRecord, ScriptView,
    NO_REQUIRED_FEATURE,
};
use crate::compile::tags;
use crate::types::tag::pack;
use crate::types::Tag;

verus! {

/// The features, scripts and languages registered for one table, as values
/// of the model.
///
/// A feature is a tag with the positions of its lookups; its index is its
/// place in `features`. A script is a tag with its languages, a language a
/// tag with its features; both are kept in ascending order of their tags.
pub struct FeatureTable {
    pub features: Seq<(Tag, Seq<u16>)>,
    pub scripts: Seq<(Tag, Seq<(Tag, LangSysView)>)>,
}

/// More features were registered than an index of sixteen bits can tell
/// apart.
#[derive(Debug, Clone, Copy, PartialEq, Eq, Structural)]
pub struct TooManyFeatures;

/// The first place at or after `from` whose tag is not below `tag`, or the
/// length of `entries` if every tag from there on is below it.
pub open spec fn lower_bound<V>(entries: Seq<(Tag, V)>, tag: Tag, from: int) -> int
    decreases entries.len() - from,
{
    if from < 0 || from >= entries.len() {
        entries.len() as int
    } else if entries[from].0.0 >= tag.0 {
        from
    } else {
        lower_bound(entries, tag, from + 1)
    }
}

/// Whether the tags of `entries` ascend, no tag occurring twice.
pub open spec fn ascending<V>(entries: Seq<(Tag, V)>) -> bool {
    forall|i: int, j: int|
        0 <= i < j < entries.len() ==> (#[trigger] entries[i]).0.0 < (#[trigger] entries[j]).0.0
}

/// Whether an entry with this tag is in `entries`.
pub open spec fn has_tag<V>(entries: Seq<(Tag, V)>, tag: Tag) -> bool {
    let at = lower_bound(entries, tag, 0);
    at < entries.len() && entries[at].0 == tag
}

/// The place of the first feature equal to `key` at or after `from`, if
/// there is one.
pub open spec fn feature_index(features: Seq<(Tag, Seq<u16>)>, key: (Tag, Seq<u16>), from: int) -> Option<
    int,
>
    decreases features.len() - from,
{
    if from < 0 || from >= features.len() {
        None
    } else if features[from] == key {
        Some(from)
    } else {
        feature_index(features, key, from + 1)
    }
}

/// Whether no feature occurs twice.
pub open spec fn distinct_features(features: Seq<(Tag, Seq<u16>)>) -> bool {
    forall|i: int, j: int|
        0 <= i < j < features.len() ==> (#[trigger] features[i]) != (#[trigger] features[j])
}

/// The language system without features.
pub open spec fn empty_lang_sys() -> LangSysView {
    LangSysView { required: NO_REQUIRED_FEATURE, features: Seq::empty() }
}

/// The language system with one more feature: as the required feature, in
/// place of the required feature that there was, or at the end of the
/// others.
pub open spec fn with_index(sys: LangSysView, idx: u16, required: bool) -> LangSysView {
    if required {
        LangSysView { required: idx, features: sys.features }
    } else {
        LangSysView { required: sys.required, features: sys.features.push(idx) }
    }
}

/// The languages with the feature `idx` added to `language`, which is put
/// in its place among the others if it is new.
pub open spec fn upsert_lang(
    langs: Seq<(Tag, LangSysView)>,
    language: Tag,
    idx: u16,
    required: bool,
) -> Seq<(Tag, LangSysView)> {
    let at = lower_bound(langs, language, 0);
    if has_tag(langs, language) {
        langs.update(at, (language, with_index(langs[at].1, idx, required)))
    } else {
        langs.insert(at, (language, with_index(empty_lang_sys(), idx, required)))
    }
}

/// The scripts with the feature `idx` added to `language` of `script`, each
/// of which is put in its place among the others if it is new.
pub open spec fn upsert_script(
    scripts: Seq<(Tag, Seq<(Tag, LangSysView)>)>,
    script: Tag,
    language: Tag,
    idx: u16,
    required: bool,
) -> Seq<(Tag, Seq<(Tag, LangSysView)>)> {
    let at = lower_bound(scripts, script, 0);
    if has_tag(scripts, script) {
        scripts.update(at, (script, upsert_lang(scripts[at].1, language, idx, required)))
    } else {
        scripts.insert(at, (script, upsert_lang(Seq::empty(), language, idx, required)))
    }
}

/// The table after the feature `key.feature` with the lookups `lookups`
/// was registered under the script and language of `key`.
///
/// A feature that was registered before with the same tag and the same
/// lookups keeps its index; any other gets the next index. There is no
/// table if the next index does not fit in sixteen bits.
pub open spec fn table_add(
    table: FeatureTable,
    key: FeatureKey,
    lookups: Seq<u16>,
    required: bool,
) -> Option<FeatureTable> {
    match feature_index(table.features, (key.feature, lookups), 0) {
        Some(idx) => Some(
            FeatureTable {
                features: table.features,
                scripts: upsert_script(table.scripts, key.script, key.language, idx as u16, required),
            },
        ),
        None => if table.features.len() > u16::MAX {
            None
        } else {
            Some(
                FeatureTable {
                    features: table.features.push((key.feature, lookups)),
                    scripts: upsert_script(
                        table.scripts,
                        key.script,
                        key.language,
                        table.features.len() as u16,
                        required,
                    ),
                },
            )
        },
    }
}

/// Whether a table is well formed: no feature occurs twice, every index
/// fits in sixteen bits, and scripts and languages ascend.
pub open spec fn table_wf(table: FeatureTable) -> bool {
    &&& distinct_features(table.features)
    &&& table.features.len() <= u16::MAX + 1
    &&& ascending(table.scripts)
    &&& forall|i: int| 0 <= i < table.scripts.len() ==> ascending((#[trigger] table.scripts[i]).1)
}

/// The model of the languages of a script.
pub open spec fn langs_view(langs: Seq<(Tag, LangSys)>) -> Seq<(Tag, LangSysView)> {
    Seq::new(langs.len(), |i: int| (langs[i].0, lang_sys_view(langs[i].1)))
}

/// The model of the scripts.
pub open spec fn scripts_view(scripts: Seq<(Tag, Vec<(Tag, LangSys)>)>) -> Seq<
    (Tag, Seq<(Tag, LangSysView)>),
> {
    Seq::new(scripts.len(), |i: int| (scripts[i].0, langs_view(scripts[i].1@)))
}

/// The model of the features.
pub open spec fn features_view(features: Seq<(Tag, Vec<u16>)>) -> Seq<(Tag, Seq<u16>)> {
    Seq::new(features.len(), |i: int| (features[i].0, features[i].1@))
}

/// `lower_bound` names the first place whose tag is not below `tag`.
pub proof fn lemma_lower_bound<V>(entries: Seq<(Tag, V)>, tag: Tag, from: int)
    requires
        0 <= from <= entries.len(),
    ensures
        from <= lower_bound(entries, tag, from) <= entries.len(),
        forall|i: int|
            from <= i < lower_bound(entries, tag, from) ==> (#[trigger] entries[i]).0.0 < tag.0,
        lower_bound(entries, tag, from) < entries.len() ==> entries[lower_bound(
            entries,
            tag,
            from,
        )].0.0 >= tag.0,
    decreases entries.len() - from,
{
    if from < entries.len() && entries[from].0.0 < tag.0 {
        lemma_lower_bound(entries, tag, from + 1);
    }
}

/// Putting an entry in its place, or exchanging the entry of its tag, keeps
/// the tags ascending.
pub proof fn lemma_upsert_ascending<V>(entries: Seq<(Tag, V)>, tag: Tag, value: V)
    requires
        ascending(entries),
    ensures
        has_tag(entries, tag) ==> ascending(
            entries.update(lower_bound(entries, tag, 0), (tag, value)),
        ),
        !has_tag(entries, tag) ==> ascending(
            entries.insert(lower_bound(entries, tag, 0), (tag, value)),
        ),
{
    lemma_lower_bound(entries, tag, 0);
    let at = lower_bound(entries, tag, 0);
    if has_tag(entries, tag) {
        let after = entries.update(at, (tag, value));
        assert forall|i: int, j: int| 0 <= i < j < after.len() implies (#[trigger] after[i]).0.0 < (
        #[trigger] after[j]).0.0 by {
            assert(entries[i].0.0 < entries[j].0.0);
        }
    } else {
        let after = entries.insert(at, (tag, value));
        assert forall|i: int, j: int| 0 <= i < j < after.len() implies (#[trigger] after[i]).0.0 < (
        #[trigger] after[j]).0.0 by {
            let oi = if i < at {
                i
            } else {
                i - 1
            };
            let oj = if j < at {
                j
            } else {
                j - 1
            };
            if i != at && j != at {
                assert(entries[oi].0.0 < entries[oj].0.0);
            } else if i == at {
                assert(entries[at].0.0 >= tag.0);
                if oj > at {
                    assert(entries[at].0.0 < entries[oj].0.0);
                }
                assert(entries[at].0 != tag);
                assert(entries[at].0.0 != tag.0);
            } else {
                assert(entries[oi].0.0 < tag.0);
            }
        }
    }
}

/// Registering a feature keeps a table well formed.
#[verifier::rlimit(40)]
pub proof fn lemma_table_add_wf(table: FeatureTable, key: FeatureKey, lookups: Seq<u16>, required: bool)
    requires
        table_wf(table),
    ensures
        table_add(table, key, lookups, required) matches Some(after) ==> table_wf(after),
{
    match table_add(table, key, lookups, required) {
        Some(after) => {
            let feature = (key.feature, lookups);
            lemma_feature_index(table.features, feature, 0);
            let idx: u16 = match feature_index(table.features, feature, 0) {
                Some(i) => i as u16,
                None => table.features.len() as u16,
            };
            let at = lower_bound(table.scripts, key.script, 0);
            lemma_lower_bound(table.scripts, key.script, 0);
            let langs = if has_tag(table.scripts, key.script) {
                table.scripts[at].1
            } else {
                Seq::empty()
            };
            assert(ascending(langs));
            let lat = lower_bound(langs, key.language, 0);
            lemma_lower_bound(langs, key.language, 0);
            let sys = if has_tag(langs, key.language) {
                with_index(langs[lat].1, idx, required)
            } else {
                with_index(empty_lang_sys(), idx, required)
            };
            lemma_upsert_ascending(langs, key.language, sys);
            let new_langs = upsert_lang(langs, key.language, idx, required);
            assert(ascending(new_langs));
            lemma_upsert_ascending(table.scripts, key.script, new_langs);
            assert(after.scripts == upsert_script(
                table.scripts,
                key.script,
                key.language,
                idx,
                required,
            ));
            assert forall|i: int| 0 <= i < after.scripts.len() implies ascending(
                (#[trigger] after.scripts[i]).1,
            ) by {
                if has_tag(table.scripts, key.script) {
                    if i != at {
                        assert(after.scripts[i] == table.scripts[i]);
                    }
                } else {
                    if i < at {
                        assert(after.scripts[i] == table.scripts[i]);
                    } else if i > at {
                        assert(after.scripts[i] == table.scripts[i - 1]);
                    }
                }
            }
            if feature_index(table.features, feature, 0) is None {
                assert forall|i: int, j: int| 0 <= i < j < after.features.len() implies (
                #[trigger] after.features[i]) != (#[trigger] after.features[j]) by {
                    if j < table.features.len() {
                        assert(table.features[i] != table.features[j]);
                    } else {
                        assert(table.features[i] != feature);
                    }
                }
            }
        },
        None => {},
    }
}

/// `feature_index` names the first place that holds the feature, and names
/// one whenever the feature occurs.
pub proof fn lemma_feature_index(features: Seq<(Tag, Seq<u16>)>, key: (Tag, Seq<u16>), from: int)
    requires
        0 <= from,
    ensures
        match feature_index(features, key, from) {
            Some(i) => from <= i < features.len() && features[i] == key,
            None => forall|j: int| from <= j < features.len() ==> (#[trigger] features[j]) != key,
        },
    decreases features.len() - from,
{
    if from < features.len() && features[from] != key {
        lemma_feature_index(features, key, from + 1);
    }
}

/// In a well-formed table two registrations share an index exactly if they
/// are of the same tag and the same lookups in the same order.
pub proof fn lemma_feature_dedup(
    table: FeatureTable,
    a: (Tag, Seq<u16>),
    b: (Tag, Seq<u16>),
)
    requires
        table_wf(table),
        feature_index(table.features, a, 0) is Some,
        feature_index(table.features, b, 0) is Some,
    ensures
        (feature_index(table.features, a, 0) == feature_index(table.features, b, 0)) <==> (a.0
            == b.0 && a.1 =~= b.1),
{
    lemma_feature_index(table.features, a, 0);
    lemma_feature_index(table.features, b, 0);
}

/// A feature that is registered is found again under the index it was
/// given, and every feature registered before keeps its index.
pub proof fn lemma_table_add_index(
    table: FeatureTable,
    key: FeatureKey,
    lookups: Seq<u16>,
    required: bool,
    other: (Tag, Seq<u16>),
)
    requires
        table_wf(table),
        table_add(table, key, lookups, required) is Some,
    ensures
        feature_index(table_add(table, key, lookups, required).unwrap().features, (key.feature, lookups), 0)
            is Some,
        feature_index(table.features, other, 0) matches Some(i) ==> feature_index(
            table_add(table, key, lookups, required).unwrap().features,
            other,
            0,
        ) == Some(i),
{
    let after = table_add(table, key, lookups, required).unwrap().features;
    let feature = (key.feature, lookups);
    lemma_feature_index(table.features, feature, 0);
    lemma_feature_index(after, feature, 0);
    if feature_index(table.features, feature, 0) is None {
        assert(after[table.features.len() as int] == feature);
    }
    lemma_feature_index(table.features, other, 0);
    lemma_feature_index(after, other, 0);
    lemma_table_add_wf(table, key, lookups, required);
    match feature_index(table.features, other, 0) {
        Some(i) => {
            assert(after[i] == other);
            let j = feature_index(after, other, 0).unwrap();
            if j != i {
                if j < i {
                    assert(after[j] != after[i]);
                } else {
                    assert(after[i] != after[j]);
                }
            }
        },
        None => {},
    }
}

/// The features, scripts and languages of one table together with its
/// lookups, from which the table is assembled.
pub struct PosSubBuilder<T> {
    lookups: Vec<T>,
    scripts: Vec<(Tag, Vec<(Tag, LangSys)>)>,
    features: Vec<(Tag, Vec<u16>)>,
}

/// Whether two lists hold the same numbers in the same order.
fn same_indices(a: &Vec<u16>, b: &Vec<u16>) -> (r: bool)
    ensures
        r == (a@ == b@),
{
    if a.len() != b.len() {
        return false;
    }
    let mut i: usize = 0;
    while i < a.len()
        invariant
            a@.len() == b@.len(),
            i <= a@.len(),
            forall|j: int| 0 <= j < i ==> a@[j] == b@[j],
        decreases a@.len() - i,
    {
        if a[i] != b[i] {
            return false;
        }
        i += 1;
    }
    assert(a@ =~= b@);
    true
}

/// Adds the feature `idx` to `language` among `langs`.
fn upsert_lang_sys(langs: &mut Vec<(Tag, LangSys)>, language: Tag, idx: u16, required: bool)
    ensures
        langs_view(final(langs)@) == upsert_lang(langs_view(old(langs)@), language, idx, required),
{
    let ghost before = langs_view(langs@);
    let mut at: usize = 0;
    while at < langs.len() && langs[at].0.0 < language.0
        invariant
            at <= langs@.len(),
            langs@ == old(langs)@,
            before == langs_view(langs@),
            lower_bound(before, language, 0) == lower_bound(before, language, at as int),
        decreases langs@.len() - at,
    {
        assert(before[at as int].0 == langs@[at as int].0);
        at += 1;
    }
    proof {
        if at < langs@.len() {
            assert(before[at as int].0 == langs@[at as int].0);
        }
        assert(lower_bound(before, language, 0) == at);
    }
    let found = at < langs.len() && langs[at].0.0 == language.0;
    if !found {
        langs.insert(at, (language, LangSys::new()));
    }
    let ghost mid = langs@;
    let entry = &mut langs[at];
    if required {
        entry.1.required_feature_index = idx;
    } else {
        entry.1.feature_indices.push(idx);
    }
    proof {
        assert(langs@ =~= mid.update(at as int, langs@[at as int]));
        assert(langs_view(langs@) =~= upsert_lang(before, language, idx, required));
    }
}

impl<T> PosSubBuilder<T> {
    /// The lookups of the table, in the order of their identifiers.
    pub closed spec fn lookups(&self) -> Seq<T> {
        self.lookups@
    }

    /// The features, scripts and languages registered so far.
    pub closed spec fn table(&self) -> FeatureTable {
        FeatureTable {
            features: features_view(self.features@),
            scripts: scripts_view(self.scripts@),
        }
    }

    /// Whether the registered features, scripts and languages are well
    /// formed.
    pub open spec fn wf(&self) -> bool {
        table_wf(self.table())
    }

    /// A table with the given lookups and nothing registered.
    pub fn new(lookups: Vec<T>) -> (r: Self)
        ensures
            r.lookups() == lookups@,
            r.table() == empty_table(),
            r.wf(),
    {
        let r = PosSubBuilder { lookups, scripts: Vec::new(), features: Vec::new() };
        assert(r.table().features =~= Seq::empty());
        assert(r.table().scripts =~= Seq::empty());
        r
    }

    /// Registers the feature `key.feature` with the lookups `lookups` under
    /// the script and language of `key`. A required feature takes the place
    /// of the required feature of that language; any other is added at the
    /// end of the features of that language.
    #[verifier::rlimit(40)]
    pub fn add(&mut self, key: FeatureKey, lookups: Vec<u16>, required: bool) -> (r: Result<
        (),
        TooManyFeatures,
    >)
        requires
            old(self).wf(),
        ensures
            final(self).wf(),
            final(self).lookups() == old(self).lookups(),
            match table_add(old(self).table(), key, lookups@, required) {
                Some(table) => r is Ok && final(self).table() == table,
                None => r is Err && final(self).table() == old(self).table(),
            },
    {
        let ghost table = self.table();
        let ghost feature = (key.feature, lookups@);
        proof {
            lemma_table_add_wf(table, key, lookups@, required);
        }
        // the index of the feature: that of an equal feature, or the next
        let mut at: usize = 0;
        while at < self.features.len() && !(self.features[at].0.0 == key.feature.0 && same_indices(
            &self.features[at].1,
            &lookups,
        ))
            invariant
                at <= self.features@.len(),
                self.features@ == old(self).features@,
                table.features == features_view(self.features@),
                feature == (key.feature, lookups@),
                feature_index(table.features, feature, 0) == feature_index(
                    table.features,
                    feature,
                    at as int,
                ),
            decreases self.features@.len() - at,
        {
            assert(table.features[at as int] == (self.features@[at as int].0, self.features@[at as int].1@));
            at += 1;
        }
        proof {
            if at < self.features@.len() {
                assert(table.features[at as int] == (
                    self.features@[at as int].0,
                    self.features@[at as int].1@,
                ));
                assert(table.features[at as int].1 =~= lookups@);
                assert(self.features@[at as int].0 == key.feature);
            }
        }
        if at == self.features.len() {
            if at > 0xFFFF {
                return Err(TooManyFeatures);
            }
            self.features.push((key.feature, lookups));
            assert(features_view(self.features@) =~= table.features.push(feature));
        }
        let idx: u16 = at as u16;

        let ghost scripts = scripts_view(self.scripts@);
        let mut pos: usize = 0;
        while pos < self.scripts.len() && self.scripts[pos].0.0 < key.script.0
            invariant
                pos <= self.scripts@.len(),
                self.scripts@ == old(self).scripts@,
                scripts == scripts_view(self.scripts@),
                lower_bound(scripts, key.script, 0) == lower_bound(scripts, key.script, pos as int),
            decreases self.scripts@.len() - pos,
        {
            assert(scripts[pos as int].0 == self.scripts@[pos as int].0);
            pos += 1;
        }
        proof {
            if pos < self.scripts@.len() {
                assert(scripts[pos as int].0 == self.scripts@[pos as int].0);
            }
            assert(lower_bound(scripts, key.script, 0) == pos);
        }
        let found = pos < self.scripts.len() && self.scripts[pos].0.0 == key.script.0;
        if !found {
            self.scripts.insert(pos, (key.script, Vec::new()));
        }
        let ghost mid = self.scripts@;
        proof {
            if !found {
                assert(langs_view(mid[pos as int].1@) =~= Seq::empty());
            } else {
                assert(langs_view(mid[pos as int].1@) == scripts[pos as int].1);
            }
        }
        let entry = &mut self.scripts[pos];
        upsert_lang_sys(&mut entry.1, key.language, idx, required);
        proof {
            assert(self.scripts@ =~= mid.update(pos as int, self.scripts@[pos as int]));
            assert(scripts_view(self.scripts@) =~= upsert_script(
                scripts,
                key.script,
                key.language,
                idx,
                required,
            ));
        }
        Ok(())
    }
}

/// The tag of the language that stands for the default language of its
/// script.
pub open spec fn dflt() -> Tag {
    Tag(pack(0x64, 0x66, 0x6C, 0x74))
}

/// The features of the default language among `langs`, if it is there.
pub open spec fn default_of(langs: Seq<(Tag, LangSysView)>) -> Option<LangSysView>
    decreases langs.len(),
{
    if langs.len() == 0 {
        None
    } else if langs.last().0 == dflt() {
        Some(langs.last().1)
    } else {
        default_of(langs.drop_last())
    }
}

/// The languages among `langs` other than the default language, in order.
pub open spec fn named_langs(langs: Seq<(Tag, LangSysView)>) -> Seq<(Tag, LangSysView)>
    decreases langs.len(),
{
    if langs.len() == 0 {
        Seq::empty()
    } else if langs.last().0 == dflt() {
        named_langs(langs.drop_last())
    } else {
        named_langs(langs.drop_last()).push(langs.last())
    }
}

/// A script as it stands in the assembled table: the default language in a
/// slot of its own, the other languages in order.
pub open spec fn emitted_script(entry: (Tag, Seq<(Tag, LangSysView)>)) -> ScriptView {
    ScriptView {
        tag: entry.0,
        default_lang_sys: default_of(entry.1),
        langs: named_langs(entry.1),
    }
}

/// The scripts as they stand in the assembled table, in order.
pub open spec fn emitted_scripts(scripts: Seq<(Tag, Seq<(Tag, LangSysView)>)>) -> Seq<ScriptView> {
    Seq::new(scripts.len(), |i: int| emitted_script(scripts[i]))
}

/// The languages other than the default language are languages of the
/// script, stand in the order in which they stood, and do not include the
/// default language.
pub proof fn lemma_named_langs(langs: Seq<(Tag, LangSysView)>)
    requires
        ascending(langs),
    ensures
        ascending(named_langs(langs)),
        forall|k: int|
            0 <= k < named_langs(langs).len() ==> (#[trigger] named_langs(langs)[k]).0 != dflt()
                && langs.contains(named_langs(langs)[k]),
        default_of(langs) matches Some(sys) ==> langs.contains((dflt(), sys)),
        default_of(langs) is None ==> forall|k: int|
            0 <= k < langs.len() ==> (#[trigger] langs[k]).0 != dflt(),
    decreases langs.len(),
{
    if langs.len() > 0 {
        let init = langs.drop_last();
        assert forall|i: int, j: int| 0 <= i < j < init.len() implies (#[trigger] init[i]).0.0 < (
        #[trigger] init[j]).0.0 by {
            assert(langs[i].0.0 < langs[j].0.0);
        }
        lemma_named_langs(init);
        let mine = named_langs(langs);
        assert forall|k: int| 0 <= k < mine.len() implies (#[trigger] mine[k]).0 != dflt()
            && langs.contains(mine[k]) by {
            if k < named_langs(init).len() {
                let item = named_langs(init)[k];
                assert(init.contains(item));
                let w = choose|w: int| 0 <= w < init.len() && init[w] == item;
                assert(langs[w] == item);
            } else {
                assert(langs[langs.len() - 1] == mine[k]);
            }
        }
        assert forall|i: int, j: int| 0 <= i < j < mine.len() implies (#[trigger] mine[i]).0.0 < (
        #[trigger] mine[j]).0.0 by {
            if j == named_langs(init).len() {
                let item = named_langs(init)[i];
                assert(init.contains(item));
                let w = choose|w: int| 0 <= w < init.len() && init[w] == item;
                assert(langs[w].0.0 < langs[langs.len() - 1].0.0);
            } else {
                assert(named_langs(init)[i].0.0 < named_langs(init)[j].0.0);
            }
        }
        match default_of(langs) {
            Some(sys) => {
                if langs.last().0 == dflt() {
                    assert(langs[langs.len() - 1] == (dflt(), sys));
                } else {
                    assert(init.contains((dflt(), sys)));
                    let w = choose|w: int| 0 <= w < init.len() && init[w] == (dflt(), sys);
                    assert(langs[w] == (dflt(), sys));
                }
            },
            None => {
                assert forall|k: int| 0 <= k < langs.len() implies (#[trigger] langs[k]).0
                    != dflt() by {
                    if k < init.len() {
                        assert(init[k] == langs[k]);
                    }
                }
            },
        }
    }
}

/// In the table assembled from a well-formed registry the scripts stand in
/// ascending order of their tags. Within a script the default language
/// stands in the slot of the default language system, and the other
/// languages stand in ascending order of their tags.
pub proof fn lemma_scripts_in_order(table: FeatureTable)
    requires
        table_wf(table),
    ensures
        forall|i: int, j: int|
            0 <= i < j < table.scripts.len() ==> (#[trigger] emitted_scripts(
                table.scripts,
            )[i]).tag.0 < (#[trigger] emitted_scripts(table.scripts)[j]).tag.0,
        forall|s: int, i: int, j: int|
            0 <= s < table.scripts.len() && 0 <= i < j < emitted_scripts(
                table.scripts,
            )[s].langs.len() ==> (#[trigger] emitted_scripts(table.scripts)[s].langs[i]).0.0 < (
            #[trigger] emitted_scripts(table.scripts)[s].langs[j]).0.0,
        forall|s: int, i: int|
            0 <= s < table.scripts.len() && 0 <= i < emitted_scripts(
                table.scripts,
            )[s].langs.len() ==> (#[trigger] emitted_scripts(table.scripts)[s].langs[i]).0
                != dflt(),
        forall|s: int|
            0 <= s < table.scripts.len() ==> ((#[trigger] emitted_scripts(
                table.scripts,
            )[s]).default_lang_sys is Some <==> has_tag(table.scripts[s].1, dflt())),
{
    let out = emitted_scripts(table.scripts);
    assert forall|i: int, j: int| 0 <= i < j < table.scripts.len() implies (#[trigger] out[i]).tag.0
        < (#[trigger] out[j]).tag.0 by {
        assert(table.scripts[i].0.0 < table.scripts[j].0.0);
    }
    assert forall|s: int| 0 <= s < table.scripts.len() implies {
        &&& ascending((#[trigger] out[s]).langs)
        &&& forall|i: int| 0 <= i < out[s].langs.len() ==> (#[trigger] out[s].langs[i]).0 != dflt()
        &&& (out[s].default_lang_sys is Some <==> has_tag(table.scripts[s].1, dflt()))
    } by {
        let langs = table.scripts[s].1;
        assert(ascending(langs));
        lemma_named_langs(langs);
        lemma_lower_bound(langs, dflt(), 0);
        let at = lower_bound(langs, dflt(), 0);
        match default_of(langs) {
            Some(sys) => {
                let w = choose|w: int| 0 <= w < langs.len() && langs[w] == (dflt(), sys);
                if w < at {
                    assert(langs[w].0.0 < dflt().0);
                }
                if w > at {
                    assert(langs[at].0.0 < langs[w].0.0);
                }
            },
            None => {},
        }
    }
    assert forall|s: int, i: int, j: int|
        0 <= s < table.scripts.len() && 0 <= i < j < out[s].langs.len() implies (
    #[trigger] out[s].langs[i]).0.0 < (#[trigger] out[s].langs[j]).0.0 by {
        assert(ascending(out[s].langs));
    }
    assert forall|s: int, i: int|
        0 <= s < table.scripts.len() && 0 <= i < out[s].langs.len() implies (
    #[trigger] out[s].langs[i]).0 != dflt() by {
        assert(ascending(out[s].langs));
    }
}

/// Whether scripts and features are those assembled from the registry
/// `table`: the features in the order of their indices, the scripts in the
/// order of their tags, with the default language of each in its own slot.
pub open spec fn registry_assembled(
    scripts: Seq<ScriptRecord>,
    features: Seq<FeatureRecord>,
    table: FeatureTable,
) -> bool {
    &&& feature_records_view(features) == table.features
    &&& script_records_view(scripts) == emitted_scripts(table.scripts)
}

/// Whether `out` is the positioning table assembled from the lookups
/// `lookups` and the registry `table`. Without lookups and without features
/// there is no table. Otherwise the lookups stand in the order of their
/// identifiers, each in its assembled form.
pub open spec fn gpos_assembled(
    out: Option<tables::Gpos>,
    lookups: Seq<PositionLookup>,
    table: FeatureTable,
) -> bool {
    if lookups.len() == 0 && table.features.len() == 0 {
        out is None
    } else {
        &&& out matches Some(t)
        &&& registry_assembled(t.scripts@, t.features@, table)
        &&& t.lookups@.len() == lookups.len()
        &&& forall|i: int|
            0 <= i < lookups.len() ==> lookups[i].assembles_to(&#[trigger] t.lookups@[i])
    }
}

/// Whether `out` is the substitution table assembled from the lookups
/// `lookups` and the registry `table`. Without lookups and without features
/// there is no table. Otherwise the lookups stand in the order of their
/// identifiers, each in its assembled form.
pub open spec fn gsub_assembled(
    out: Option<tables::Gsub>,
    lookups: Seq<SubstitutionLookup>,
    table: FeatureTable,
) -> bool {
    if lookups.len() == 0 && table.features.len() == 0 {
        out is None
    } else {
        &&& out matches Some(t)
        &&& registry_assembled(t.scripts@, t.features@, table)
        &&& t.lookups@.len() == lookups.len()
        &&& forall|i: int|
            0 <= i < lookups.len() ==> lookups[i].assembles_to(&#[trigger] t.lookups@[i])
    }
}

/// Parts the languages of a script into the default language and the
/// others.
fn emit_script(tag: Tag, langs: Vec<(Tag, LangSys)>) -> (r: ScriptRecord)
    ensures
        script_record_view(r) == emitted_script((tag, langs_view(langs@))),
{
    let ghost all = langs_view(langs@);
    let ghost given = langs@;
    let dflt_tag = tags::lang_dflt();
    let mut script = Script { default_lang_sys: None, lang_sys_records: Vec::new() };
    for entry in it: langs
        invariant
            it.seq() == given,
            all == langs_view(given),
            dflt_tag == dflt(),
            script_record_view(ScriptRecord { script_tag: tag, script }).default_lang_sys
                == default_of(all.take(it.index() as int)),
            script_record_view(ScriptRecord { script_tag: tag, script }).langs == named_langs(
                all.take(it.index() as int),
            ),
    {
        proof {
            let next = all.take(it.index() + 1);
            assert(next.drop_last() =~= all.take(it.index() as int));
            assert(next.last() == (entry.0, lang_sys_view(entry.1)));
        }
        let ghost before = script_record_view(ScriptRecord { script_tag: tag, script });
        let (lang_tag, lang_sys) = entry;
        if lang_tag.0 == dflt_tag.0 {
            script.default_lang_sys = Some(lang_sys);
            assert(script_record_view(ScriptRecord { script_tag: tag, script }).langs
                =~= before.langs);
        } else {
            script.lang_sys_records.push(LangSysRecord { lang_sys_tag: lang_tag, lang_sys });
            assert(script_record_view(ScriptRecord { script_tag: tag, script }).langs
                =~= before.langs.push((lang_tag, lang_sys_view(lang_sys))));
        }
    }
    assert(all.take(given.len() as int) =~= all);
    ScriptRecord { script_tag: tag, script }
}

impl<T: Builder> PosSubBuilder<T> {
    /// Assembles the parts of the table: the lookups, the scripts and the
    /// features. Without lookups and without features there is nothing to
    /// assemble.
    pub fn build_raw(self) -> (r: Option<(Vec<T::Output>, Vec<ScriptRecord>, Vec<FeatureRecord>)>)
        ensures
            r is None <==> (self.lookups().len() == 0 && self.table().features.len() == 0),
            r matches Some((lookups, scripts, features)) ==> {
                &&& registry_assembled(scripts@, features@, self.table())
                &&& lookups@.len() == self.lookups().len()
                &&& forall|i: int|
                    0 <= i < lookups@.len() ==> call_ensures(
                        T::build,
                        (self.lookups()[i],),
                        #[trigger] lookups@[i],
                    )
            },
    {
        if self.lookups.len() == 0 && self.features.len() == 0 {
            return None;
        }
        let ghost table = self.table();
        let PosSubBuilder { lookups, scripts, features } = self;

        let ghost given_features = features@;
        let mut feature_records: Vec<FeatureRecord> = Vec::new();
        for entry in it: features
            invariant
                it.seq() == given_features,
                feature_records_view(feature_records@) == features_view(given_features).take(
                    it.index() as int,
                ),
        {
            let ghost before = feature_records_view(feature_records@);
            let (tag, indices) = entry;
            feature_records.push(FeatureRecord { feature_tag: tag, lookup_list_indices: indices });
            assert(feature_records_view(feature_records@) =~= before.push((tag, indices@)));
            assert(features_view(given_features).take(it.index() + 1) =~= features_view(
                given_features,
            ).take(it.index() as int).push((tag, indices@)));
        }
        assert(features_view(given_features).take(given_features.len() as int) =~= features_view(
            given_features,
        ));

        let ghost given_scripts = scripts@;
        let mut script_records: Vec<ScriptRecord> = Vec::new();
        for entry in it: scripts
            invariant
                it.seq() == given_scripts,
                script_records_view(script_records@) == emitted_scripts(
                    scripts_view(given_scripts),
                ).take(it.index() as int),
        {
            let ghost before = script_records_view(script_records@);
            let (script_tag, langs) = entry;
            let record = emit_script(script_tag, langs);
            script_records.push(record);
            assert(script_records_view(script_records@) =~= before.push(script_record_view(record)));
            assert(emitted_scripts(scripts_view(given_scripts)).take(it.index() + 1)
                =~= emitted_scripts(scripts_view(given_scripts)).take(it.index() as int).push(
                script_record_view(record),
            ));
        }
        assert(emitted_scripts(scripts_view(given_scripts)).take(given_scripts.len() as int)
            =~= emitted_scripts(scripts_view(given_scripts)));

        let ghost given_lookups = lookups@;
        let mut built: Vec<T::Output> = Vec::new();
        for lookup in it: lookups
            invariant
                it.seq() == given_lookups,
                built@.len() == it.index(),
                forall|i: int|
                    0 <= i < built@.len() ==> call_ensures(
                        T::build,
                        (given_lookups[i],),
                        #[trigger] built@[i],
                    ),
        {
            built.push(lookup.build());
        }
        Some((built, script_records, feature_records))
    }
}

impl Builder for PosSubBuilder<PositionLookup> {
    type Output = Option<tables::Gpos>;

    /// The positioning table, if there is anything to put in it.
    fn build(self) -> (r: Option<tables::Gpos>)
        ensures
            gpos_assembled(r, self.lookups(), self.table()),
    {
        match self.build_raw() {
            Some((lookups, scripts, features)) => Some(LayoutTable { scripts, features, lookups }),
            None => None,
        }
    }
}

impl Builder for PosSubBuilder<SubstitutionLookup> {
    type Output = Option<tables::Gsub>;

    /// The substitution table, if there is anything to put in it.
    fn build(self) -> (r: Option<tables::Gsub>)
        ensures
            gsub_assembled(r, self.lookups(), self.table()),
    {
        match self.build_raw() {
            Some((lookups, scripts, features)) => Some(LayoutTable { scripts, features, lookups }),
            None => None,
        }
    }
}

/// The table in which nothing is registered.
pub open spec fn empty_table() -> FeatureTable {
    FeatureTable { features: Seq::empty(), scripts: Seq::empty() }
}

/// The tag of the feature that carries parameters and no lookups.
pub open spec fn size_feature() -> Tag {
    Tag(pack(0x73, 0x69, 0x7A, 0x65))
}

/// The registries of the substitution and of the positioning table after
/// one feature with the lookups `ids` was registered under `key`.
///
/// The feature `size` is registered for the positioning table, without
/// lookups. Any other feature is registered for each table of which it has
/// lookups, with those lookups. There is no result if a table cannot hold
/// another feature.
pub open spec fn register_one(
    gsub: FeatureTable,
    gpos: FeatureTable,
    key: FeatureKey,
    ids: Seq<LookupId>,
    required: bool,
) -> Option<(FeatureTable, FeatureTable)> {
    if key.feature == size_feature() {
        match table_add(gpos, key, Seq::empty(), required) {
            Some(p) => Some((gsub, p)),
            None => None,
        }
    } else {
        let p = if gpos_indices(ids).len() > 0 {
            table_add(gpos, key, gpos_indices(ids), required)
        } else {
            Some(gpos)
        };
        let s = if gsub_indices(ids).len() > 0 {
            table_add(gsub, key, gsub_indices(ids), required)
        } else {
            Some(gsub)
        };
        match (s, p) {
            (Some(s), Some(p)) => Some((s, p)),
            _ => None,
        }
    }
}

/// The registries of the substitution and of the positioning table after
/// the features `entries` were registered in order, those among `required`
/// as required features.
pub open spec fn register_all(
    entries: Seq<(FeatureKey, Vec<LookupId>)>,
    required: Seq<FeatureKey>,
) -> Option<(FeatureTable, FeatureTable)>
    decreases entries.len(),
{
    if entries.len() == 0 {
        Some((empty_table(), empty_table()))
    } else {
        match register_all(entries.drop_last(), required) {
            Some((gsub, gpos)) => register_one(
                gsub,
                gpos,
                entries.last().0,
                entries.last().1@,
                required.contains(entries.last().0),
            ),
            None => None,
        }
    }
}

/// Whether the key is among `keys`.
pub fn contains_key(keys: &Vec<FeatureKey>, key: FeatureKey) -> (r: bool)
    ensures
        r == keys@.contains(key),
{
    let mut i: usize = 0;
    while i < keys.len()
        invariant
            i <= keys@.len(),
            forall|j: int| 0 <= j < i ==> keys@[j] != key,
        decreases keys@.len() - i,
    {
        if keys[i] == key {
            return true;
        }
        i += 1;
    }
    false
}

} // verus!
