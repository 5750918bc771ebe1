use vstd::prelude::*;
use crate::model::{ParameterSelector, SelectorView, Tag};
use crate::tags::{given_pairs, lemma_replace_tags_pairs, links_below, tag_pairs, tags_fresh};
use crate::text::{chars_of, chars_eq, sort_seq, sort_strings, string_from_chars, views};

verus! {

/// A row of the parameter table: the latest state of one parameter.
pub struct ParamRow {
    pub key: String,
    pub param_type: String,
    pub description: Option<String>,
    pub data_type: Option<String>,
    pub allowed_pattern: Option<String>,
    pub version: i64,
    pub last_modified_date: i64,
}

/// A row of the version table: one stored version of a parameter.
pub struct VersionRow {
    pub param_key: String,
    pub version: i64,
    pub value: Vec<u8>,
    pub param_type: String,
    pub description: Option<String>,
    pub data_type: Option<String>,
    pub allowed_pattern: Option<String>,
    pub last_modified_date: i64,
}

/// A row of the label table: a label of a parameter and the version it
/// points at.
pub struct LabelRow {
    pub param_key: String,
    pub label: String,
    pub version: i64,
}

/// A row of the link table between parameters and tags.
pub struct ParamTagRow {
    pub param_key: String,
    pub tag_id: i64,
}

/// A row of the tag table.
pub struct TagRow {
    pub id: i64,
    pub key: String,
    pub value: String,
}

/// The text of an optional string.
pub open spec fn ov(s: Option<String>) -> Option<Seq<char>> {
    match s {
        Some(v) => Some(v@),
        None => None,
    }
}

/// A parameter row as text.
pub struct ParamView {
    pub key: Seq<char>,
    pub param_type: Seq<char>,
    pub description: Option<Seq<char>>,
    pub data_type: Option<Seq<char>>,
    pub allowed_pattern: Option<Seq<char>>,
    pub version: i64,
    pub last_modified_date: i64,
}

/// A version row as text.
pub struct VersionView {
    pub param_key: Seq<char>,
    pub version: i64,
    pub value: Seq<u8>,
    pub param_type: Seq<char>,
    pub description: Option<Seq<char>>,
    pub data_type: Option<Seq<char>>,
    pub allowed_pattern: Option<Seq<char>>,
    pub last_modified_date: i64,
}

/// A label row as text.
pub struct LabelView {
    pub param_key: Seq<char>,
    pub label: Seq<char>,
    pub version: i64,
}

/// A link row as text.
pub struct LinkView {
    pub param_key: Seq<char>,
    pub tag_id: i64,
}

/// A tag row as text.
pub struct TagView {
    pub id: i64,
    pub key: Seq<char>,
    pub value: Seq<char>,
}

impl View for ParamRow {
    type V = ParamView;

    open spec fn view(&self) -> ParamView {
        ParamView {
            key: self.key@,
            param_type: self.param_type@,
            description: ov(self.description),
            data_type: ov(self.data_type),
            allowed_pattern: ov(self.allowed_pattern),
            version: self.version,
            last_modified_date: self.last_modified_date,
        }
    }
}

impl View for VersionRow {
    type V = VersionView;

    open spec fn view(&self) -> VersionView {
        VersionView {
            param_key: self.param_key@,
            version: self.version,
            value: self.value@,
            param_type: self.param_type@,
            description: ov(self.description),
            data_type: ov(self.data_type),
            allowed_pattern: ov(self.allowed_pattern),
            last_modified_date: self.last_modified_date,
        }
    }
}

impl View for LabelRow {
    type V = LabelView;

    open spec fn view(&self) -> LabelView {
        LabelView { param_key: self.param_key@, label: self.label@, version: self.version }
    }
}

impl View for ParamTagRow {
    type V = LinkView;

    open spec fn view(&self) -> LinkView {
        LinkView { param_key: self.param_key@, tag_id: self.tag_id }
    }
}

impl View for TagRow {
    type V = TagView;

    open spec fn view(&self) -> TagView {
        TagView { id: self.id, key: self.key@, value: self.value@ }
    }
}

/// The contents of the store's tables.
pub struct StoreView {
    pub params: Seq<ParamView>,
    pub versions: Seq<VersionView>,
    pub labels: Seq<LabelView>,
    pub links: Seq<LinkView>,
    pub tags: Seq<TagView>,
    pub next_tag_id: i64,
}

/// The parameter store: the tables that hold parameters, their versions,
/// labels and tags. `next_tag_id` is the id the next tag row receives.
pub struct ParamStore {
    pub params: Vec<ParamRow>,
    pub versions: Vec<VersionRow>,
    pub labels: Vec<LabelRow>,
    pub param_tags: Vec<ParamTagRow>,
    pub tags: Vec<TagRow>,
    pub next_tag_id: i64,
}

/// The views of a sequence of rows.
pub open spec fn row_views<T: View>(s: Seq<T>) -> Seq<T::V> {
    s.map_values(|r: T| r@)
}

impl View for ParamStore {
    type V = StoreView;

    open spec fn view(&self) -> StoreView {
        StoreView {
            params: row_views(self.params@),
            versions: row_views(self.versions@),
            labels: row_views(self.labels@),
            links: row_views(self.param_tags@),
            tags: row_views(self.tags@),
            next_tag_id: self.next_tag_id,
        }
    }
}

/// The index of the parameter row for `name`, or -1.
pub open spec fn param_index(ps: Seq<ParamView>, name: Seq<char>) -> int
    decreases ps.len(),
{
    if ps.len() == 0 {
        -1
    } else if ps.last().key == name {
        ps.len() - 1
    } else {
        param_index(ps.drop_last(), name)
    }
}

/// The index of the version row for `name` and `version`, or -1.
pub open spec fn version_index(vs: Seq<VersionView>, name: Seq<char>, version: i64) -> int
    decreases vs.len(),
{
    if vs.len() == 0 {
        -1
    } else if vs.last().param_key == name && vs.last().version == version {
        vs.len() - 1
    } else {
        version_index(vs.drop_last(), name, version)
    }
}

/// The index of the label row for `name` and `label`, or -1.
pub open spec fn label_index(ls: Seq<LabelView>, name: Seq<char>, label: Seq<char>) -> int
    decreases ls.len(),
{
    if ls.len() == 0 {
        -1
    } else if ls.last().param_key == name && ls.last().label == label {
        ls.len() - 1
    } else {
        label_index(ls.drop_last(), name, label)
    }
}

pub proof fn lemma_param_index(ps: Seq<ParamView>, name: Seq<char>)
    ensures
        -1 <= param_index(ps, name) < ps.len(),
        param_index(ps, name) >= 0 ==> ps[param_index(ps, name)].key == name,
        param_index(ps, name) < 0 ==> forall|i: int| 0 <= i < ps.len() ==> ps[i].key != name,
    decreases ps.len(),
{
    if ps.len() > 0 && ps.last().key != name {
        lemma_param_index(ps.drop_last(), name);
        assert forall|i: int| 0 <= i < ps.len() && param_index(ps, name) < 0 implies ps[i].key != name by {
            if i < ps.len() - 1 {
                assert(ps[i] == ps.drop_last()[i]);
            }
        }
    }
}

/// The parameter row found for `name` is the last row with that key.
pub proof fn lemma_param_index_is_last(ps: Seq<ParamView>, name: Seq<char>, i: int)
    requires
        0 <= i < ps.len(),
        ps[i].key == name,
        forall|j: int| i < j < ps.len() ==> ps[j].key != name,
    ensures
        param_index(ps, name) == i,
    decreases ps.len(),
{
    if i < ps.len() - 1 {
        assert(ps.last().key != name);
        lemma_param_index_is_last(ps.drop_last(), name, i);
    }
}

/// No row after the one found for `name` has that key.
pub proof fn lemma_param_index_after(ps: Seq<ParamView>, name: Seq<char>)
    ensures
        forall|j: int| param_index(ps, name) < j < ps.len() ==> ps[j].key != name,
    decreases ps.len(),
{
    lemma_param_index(ps, name);
    if ps.len() > 0 && ps.last().key != name {
        lemma_param_index(ps.drop_last(), name);
        lemma_param_index_after(ps.drop_last(), name);
        assert forall|j: int| param_index(ps, name) < j < ps.len() implies ps[j].key != name by {
            if j < ps.len() - 1 {
                assert(ps[j] == ps.drop_last()[j]);
            }
        }
    }
}

pub proof fn lemma_version_index(vs: Seq<VersionView>, name: Seq<char>, version: i64)
    ensures
        -1 <= version_index(vs, name, version) < vs.len(),
        version_index(vs, name, version) >= 0 ==> vs[version_index(vs, name, version)].param_key
            == name && vs[version_index(vs, name, version)].version == version,
        version_index(vs, name, version) < 0 ==> forall|i: int|
            0 <= i < vs.len() ==> !(vs[i].param_key == name && vs[i].version == version),
    decreases vs.len(),
{
    if vs.len() > 0 && !(vs.last().param_key == name && vs.last().version == version) {
        lemma_version_index(vs.drop_last(), name, version);
        assert forall|i: int|
            0 <= i < vs.len() && version_index(vs, name, version) < 0 implies !(vs[i].param_key
            == name && vs[i].version == version) by {
            if i < vs.len() - 1 {
                assert(vs[i] == vs.drop_last()[i]);
            }
        }
    }
}

pub proof fn lemma_label_index(ls: Seq<LabelView>, name: Seq<char>, label: Seq<char>)
    ensures
        -1 <= label_index(ls, name, label) < ls.len(),
        label_index(ls, name, label) >= 0 ==> ls[label_index(ls, name, label)].param_key == name
            && ls[label_index(ls, name, label)].label == label,
        label_index(ls, name, label) < 0 ==> forall|i: int|
            0 <= i < ls.len() ==> !(ls[i].param_key == name && ls[i].label == label),
    decreases ls.len(),
{
    if ls.len() > 0 && !(ls.last().param_key == name && ls.last().label == label) {
        lemma_label_index(ls.drop_last(), name, label);
        assert forall|i: int|
            0 <= i < ls.len() && label_index(ls, name, label) < 0 implies !(ls[i].param_key == name
            && ls[i].label == label) by {
            if i < ls.len() - 1 {
                assert(ls[i] == ls.drop_last()[i]);
            }
        }
    }
}

/// The version row that a selector names in store `s`, as an index into
/// the version table (-1 when there is none): the latest version of the
/// parameter, the numbered version, or the version the label points at.
pub open spec fn spec_resolve(s: StoreView, sel: SelectorView) -> int {
    match sel {
        SelectorView::Latest(name) => {
            let p = param_index(s.params, name);
            if p < 0 {
                -1
            } else {
                version_index(s.versions, name, s.params[p].version)
            }
        },
        SelectorView::Version { name, version } => version_index(s.versions, name, version),
        SelectorView::Label { name, label } => {
            let l = label_index(s.labels, name, label);
            if l < 0 {
                -1
            } else {
                version_index(s.versions, name, s.labels[l].version)
            }
        },
    }
}

impl ParamStore {
    /// An empty store.
    pub fn new() -> (res: ParamStore)
        ensures
            res@.params.len() == 0,
            res@.versions.len() == 0,
            res@.labels.len() == 0,
            res@.links.len() == 0,
            res@.tags.len() == 0,
            res@.next_tag_id == 1,
    {
        ParamStore {
            params: Vec::new(),
            versions: Vec::new(),
            labels: Vec::new(),
            param_tags: Vec::new(),
            tags: Vec::new(),
            next_tag_id: 1,
        }
    }

    /// The index of the parameter row for `name`.
    pub fn find_param(&self, name: &str) -> (res: Option<usize>)
        ensures
            match res {
                Some(i) => i as int == param_index(self@.params, name@) && i < self.params.len(),
                None => param_index(self@.params, name@) < 0,
            },
    {
        proof {
            lemma_param_index(self@.params, name@);
        }
        let n = chars_of(name);
        let mut i: usize = self.params.len();
        assert(self@.params.take(i as int) =~= self@.params);
        while i > 0
            invariant
                i <= self.params.len(),
                n@ == name@,
                param_index(self@.params, name@) == param_index(self@.params.take(i as int), name@),
            decreases i,
        {
            let k = chars_of(self.params[i - 1].key.as_str());
            assert(self@.params.take(i as int).last() == self.params@[i - 1]@);
            assert(self@.params.take(i as int).drop_last() =~= self@.params.take(i - 1));
            if chars_eq(&k, &n) {
                return Some(i - 1);
            }
            i = i - 1;
        }
        None
    }

    /// The index of the version row for `name` and `version`.
    pub fn find_version(&self, name: &str, version: i64) -> (res: Option<usize>)
        ensures
            match res {
                Some(i) => i as int == version_index(self@.versions, name@, version) && i
                    < self.versions.len(),
                None => version_index(self@.versions, name@, version) < 0,
            },
    {
        proof {
            lemma_version_index(self@.versions, name@, version);
        }
        let n = chars_of(name);
        let mut i: usize = self.versions.len();
        assert(self@.versions.take(i as int) =~= self@.versions);
        while i > 0
            invariant
                i <= self.versions.len(),
                n@ == name@,
                version_index(self@.versions, name@, version) == version_index(
                    self@.versions.take(i as int),
                    name@,
                    version,
                ),
            decreases i,
        {
            let row = &self.versions[i - 1];
            assert(self@.versions.take(i as int).last() == row@);
            assert(self@.versions.take(i as int).drop_last() =~= self@.versions.take(i - 1));
            if row.version == version {
                let k = chars_of(row.param_key.as_str());
                if chars_eq(&k, &n) {
                    return Some(i - 1);
                }
            }
            i = i - 1;
        }
        None
    }

    /// The index of the label row for `name` and `label`.
    pub fn find_label(&self, name: &str, label: &str) -> (res: Option<usize>)
        ensures
            match res {
                Some(i) => i as int == label_index(self@.labels, name@, label@) && i
                    < self.labels.len(),
                None => label_index(self@.labels, name@, label@) < 0,
            },
    {
        proof {
            lemma_label_index(self@.labels, name@, label@);
        }
        let n = chars_of(name);
        let l = chars_of(label);
        let mut i: usize = self.labels.len();
        assert(self@.labels.take(i as int) =~= self@.labels);
        while i > 0
            invariant
                i <= self.labels.len(),
                n@ == name@,
                l@ == label@,
                label_index(self@.labels, name@, label@) == label_index(
                    self@.labels.take(i as int),
                    name@,
                    label@,
                ),
            decreases i,
        {
            let row = &self.labels[i - 1];
            assert(self@.labels.take(i as int).last() == row@);
            assert(self@.labels.take(i as int).drop_last() =~= self@.labels.take(i - 1));
            let k = chars_of(row.param_key.as_str());
            let x = chars_of(row.label.as_str());
            if chars_eq(&k, &n) && chars_eq(&x, &l) {
                return Some(i - 1);
            }
            i = i - 1;
        }
        None
    }

    /// The version row that `selector` names.
    pub fn resolve_version(&self, selector: &ParameterSelector) -> (res: Option<usize>)
        ensures
            match res {
                Some(i) => i as int == spec_resolve(self@, selector@) && i < self.versions.len(),
                None => spec_resolve(self@, selector@) < 0,
            },
    {
        match selector {
            ParameterSelector::Latest(name) => match self.find_param(name.as_str()) {
                Some(p) => self.find_version(name.as_str(), self.params[p].version),
                None => None,
            },
            ParameterSelector::Version { name, version } => self.find_version(
                name.as_str(),
                *version,
            ),
            ParameterSelector::Label { name, label } => match self.find_label(
                name.as_str(),
                label.as_str(),
            ) {
                Some(l) => self.find_version(name.as_str(), self.labels[l].version),
                None => None,
            },
        }
    }
}


/// The labels of rows of `ls` that point at `version` of `name`, in table order.
pub open spec fn labels_of(ls: Seq<LabelView>, name: Seq<char>, version: i64) -> Seq<Seq<char>>
    decreases ls.len(),
{
    if ls.len() == 0 {
        Seq::empty()
    } else if ls.last().param_key == name && ls.last().version == version {
        labels_of(ls.drop_last(), name, version).push(ls.last().label)
    } else {
        labels_of(ls.drop_last(), name, version)
    }
}

/// The index of the tag row with `id`, or -1.
pub open spec fn tag_index(ts: Seq<TagView>, id: i64) -> int
    decreases ts.len(),
{
    if ts.len() == 0 {
        -1
    } else if ts.last().id == id {
        ts.len() - 1
    } else {
        tag_index(ts.drop_last(), id)
    }
}

pub proof fn lemma_tag_index(ts: Seq<TagView>, id: i64)
    ensures
        -1 <= tag_index(ts, id) < ts.len(),
        tag_index(ts, id) >= 0 ==> ts[tag_index(ts, id)].id == id,
    decreases ts.len(),
{
    if ts.len() > 0 && ts.last().id != id {
        lemma_tag_index(ts.drop_last(), id);
    }
}

/// Whether link `i` ties `name` to a tag with key `key` and, when
/// `values` is not empty, one of `values`.
pub open spec fn link_matches(s: StoreView, i: int, name: Seq<char>, key: Seq<char>, values: Seq<Seq<char>>) -> bool {
    let t = tag_index(s.tags, s.links[i].tag_id);
    &&& s.links[i].param_key == name
    &&& t >= 0
    &&& s.tags[t].key == key
    &&& (values.len() == 0 || exists|j: int| 0 <= j < values.len() && #[trigger] values[j] == s.tags[t].value)
}

/// Whether parameter `name` carries a tag with key `key` and, when
/// `values` is not empty, one of `values`.
pub open spec fn spec_has_tag(s: StoreView, name: Seq<char>, key: Seq<char>, values: Seq<Seq<char>>) -> bool {
    exists|i: int| 0 <= i < s.links.len() && #[trigger] link_matches(s, i, name, key, values)
}

/// Whether a label row ties `label` to `version` of `name`.
pub open spec fn spec_version_has_label(s: StoreView, name: Seq<char>, version: i64, label: Seq<char>) -> bool {
    exists|i: int|
        0 <= i < s.labels.len() && (#[trigger] s.labels[i]).param_key == name && s.labels[i].version
            == version && s.labels[i].label == label
}

impl ParamStore {
    /// The labels that point at `version` of `name`, sorted.
    pub fn labels_for_version(&self, name: &str, version: i64) -> (res: Vec<String>)
        ensures
            views(res@) == sort_seq(labels_of(self@.labels, name@, version)),
    {
        let n = chars_of(name);
        let mut found: Vec<String> = Vec::new();
        let mut i: usize = 0;
        while i < self.labels.len()
            invariant
                i <= self.labels.len(),
                n@ == name@,
                views(found@) == labels_of(self@.labels.take(i as int), name@, version),
            decreases self.labels.len() - i,
        {
            let row = &self.labels[i];
            assert(self@.labels.take(i + 1).drop_last() =~= self@.labels.take(i as int));
            assert(self@.labels.take(i + 1).last() == row@);
            let k = chars_of(row.param_key.as_str());
            if row.version == version && chars_eq(&k, &n) {
                let ghost before = found@;
                found.push(row.label.clone());
                assert(views(found@) =~= views(before).push(row.label@));
            }
            i = i + 1;
        }
        assert(self@.labels.take(i as int) =~= self@.labels);
        sort_strings(found)
    }

    /// Whether parameter `name` has a label `label`.
    pub fn parameter_has_label(&self, name: &str, label: &str) -> (res: bool)
        ensures
            res == (label_index(self@.labels, name@, label@) >= 0),
    {
        self.find_label(name, label).is_some()
    }

    /// Whether a label row ties `label` to `version` of `name`.
    pub fn parameter_version_has_label(&self, name: &str, version: i64, label: &str) -> (res: bool)
        ensures
            res == spec_version_has_label(self@, name@, version, label@),
    {
        let n = chars_of(name);
        let l = chars_of(label);
        let mut i: usize = 0;
        while i < self.labels.len()
            invariant
                i <= self.labels.len(),
                n@ == name@,
                l@ == label@,
                forall|j: int|
                    0 <= j < i ==> !((#[trigger] self@.labels[j]).param_key == name@
                        && self@.labels[j].version == version && self@.labels[j].label == label@),
            decreases self.labels.len() - i,
        {
            let row = &self.labels[i];
            assert(self@.labels[i as int] == row@);
            let k = chars_of(row.param_key.as_str());
            let x = chars_of(row.label.as_str());
            if row.version == version && chars_eq(&k, &n) && chars_eq(&x, &l) {
                return true;
            }
            i = i + 1;
        }
        false
    }

    /// The index of the tag row with `id`.
    pub fn find_tag(&self, id: i64) -> (res: Option<usize>)
        ensures
            match res {
                Some(i) => i as int == tag_index(self@.tags, id) && i < self.tags.len(),
                None => tag_index(self@.tags, id) < 0,
            },
    {
        proof {
            lemma_tag_index(self@.tags, id);
        }
        let mut i: usize = self.tags.len();
        assert(self@.tags.take(i as int) =~= self@.tags);
        while i > 0
            invariant
                i <= self.tags.len(),
                tag_index(self@.tags, id) == tag_index(self@.tags.take(i as int), id),
            decreases i,
        {
            assert(self@.tags.take(i as int).last() == self.tags@[i - 1]@);
            assert(self@.tags.take(i as int).drop_last() =~= self@.tags.take(i - 1));
            if self.tags[i - 1].id == id {
                return Some(i - 1);
            }
            i = i - 1;
        }
        None
    }

    /// Whether parameter `name` carries a tag with key `tag_key` and, when
    /// `values` is not empty, one of `values`.
    pub fn parameter_has_tag(&self, name: &str, tag_key: &str, values: &[String]) -> (res: bool)
        ensures
            res == spec_has_tag(self@, name@, tag_key@, views(values@)),
    {
        let n = chars_of(name);
        let tk = chars_of(tag_key);
        let mut i: usize = 0;
        while i < self.param_tags.len()
            invariant
                i <= self.param_tags.len(),
                n@ == name@,
                tk@ == tag_key@,
                forall|j: int|
                    0 <= j < i ==> !#[trigger] link_matches(self@, j, name@, tag_key@, views(values@)),
            decreases self.param_tags.len() - i,
        {
            let link = &self.param_tags[i];
            assert(self@.links[i as int] == link@);
            let k = chars_of(link.param_key.as_str());
            if chars_eq(&k, &n) {
                if let Some(t) = self.find_tag(link.tag_id) {
                    let tag = &self.tags[t];
                    assert(self@.tags[t as int] == tag@);
                    let kk = chars_of(tag.key.as_str());
                    if chars_eq(&kk, &tk) {
                        let tv = chars_of(tag.value.as_str());
                        let mut hit = values.len() == 0;
                        let mut j: usize = 0;
                        while j < values.len() && !hit
                            invariant
                                j <= values.len(),
                                tv@ == tag.value@,
                                hit ==> (values@.len() == 0 || exists|m: int|
                                    0 <= m < views(values@).len() && #[trigger] views(values@)[m]
                                        == tag.value@),
                                !hit ==> values@.len() > 0 && forall|m: int|
                                    0 <= m < j ==> #[trigger] views(values@)[m] != tag.value@,
                            decreases values.len() - j,
                        {
                            let vc = chars_of(values[j].as_str());
                            assert(views(values@)[j as int] == values@[j as int]@);
                            if chars_eq(&vc, &tv) {
                                hit = true;
                            }
                            j = j + 1;
                        }
                        if hit {
                            assert(link_matches(self@, i as int, name@, tag_key@, views(values@)));
                            return true;
                        }
                    }
                }
            }
            i = i + 1;
        }
        false
    }
}


/// The elements of `s` whose flag in `keep` is set, in order.
pub open spec fn select<T>(s: Seq<T>, keep: Seq<bool>) -> Seq<T>
    decreases s.len(),
{
    if s.len() == 0 {
        s
    } else {
        let r = select(s.drop_last(), keep.take(s.len() - 1));
        if keep[s.len() - 1] {
            r.push(s.last())
        } else {
            r
        }
    }
}

pub proof fn lemma_select_views<T: View>(s: Seq<T>, keep: Seq<bool>)
    ensures
        row_views(select(s, keep)) == select(row_views(s), keep),
    decreases s.len(),
{
    if s.len() > 0 {
        lemma_select_views(s.drop_last(), keep.take(s.len() - 1));
        assert(row_views(s).drop_last() =~= row_views(s.drop_last()));
        let r = select(s.drop_last(), keep.take(s.len() - 1));
        assert(row_views(r.push(s.last())) =~= row_views(r).push(s.last()@));
    }
}

/// What holds of every kept element holds of every element of the selection.
pub proof fn lemma_select_all<T>(s: Seq<T>, keep: Seq<bool>, p: spec_fn(T) -> bool)
    requires
        keep.len() == s.len(),
        forall|i: int| 0 <= i < s.len() && keep[i] ==> p(s[i]),
    ensures
        forall|k: int| 0 <= k < select(s, keep).len() ==> p(#[trigger] select(s, keep)[k]),
    decreases s.len(),
{
    if s.len() > 0 {
        let keep2 = keep.take(s.len() - 1);
        assert forall|i: int| 0 <= i < s.drop_last().len() && keep2[i] implies p(s.drop_last()[i]) by {
            assert(s.drop_last()[i] == s[i]);
        }
        lemma_select_all(s.drop_last(), keep2, p);
        let r = select(s.drop_last(), keep2);
        assert forall|k: int| 0 <= k < select(s, keep).len() implies p(#[trigger] select(s, keep)[k]) by {
            if k < r.len() {
                assert(select(s, keep)[k] == r[k]);
            } else {
                assert(keep[s.len() - 1]);
                assert(select(s, keep)[k] == s[s.len() - 1]);
            }
        }
    }
}

proof fn lemma_select_step<T>(s: Seq<T>, keep: Seq<bool>, i: int)
    requires
        0 <= i < s.len(),
        keep.len() == s.len(),
    ensures
        select(s.take(i + 1), keep.take(i + 1)) == if keep[i] {
            select(s.take(i), keep.take(i)).push(s[i])
        } else {
            select(s.take(i), keep.take(i))
        },
{
    assert(s.take(i + 1).drop_last() =~= s.take(i));
    assert(keep.take(i + 1).take(i) =~= keep.take(i));
}

/// Keeps the elements of `v` whose flag in `keep` is set.
pub fn retain_flagged<T>(v: &mut Vec<T>, keep: &Vec<bool>)
    requires
        keep@.len() == old(v)@.len(),
    ensures
        final(v)@ == select(old(v)@, keep@),
{
    let ghost orig = v@;
    let mut rev: Vec<T> = Vec::new();
    let mut i: usize = v.len();
    assert(orig.take(i as int) =~= orig);
    assert(keep@.take(i as int) =~= keep@);
    while i > 0
        invariant
            i <= orig.len(),
            keep@.len() == orig.len(),
            v@ == orig.take(i as int),
            select(orig, keep@) == select(orig.take(i as int), keep@.take(i as int)) + rev@.reverse(),
        decreases i,
    {
        let x = v.pop().unwrap();
        i = i - 1;
        proof {
            lemma_select_step(orig, keep@, i as int);
            assert(orig.take(i + 1).drop_last() =~= orig.take(i as int));
        }
        if keep[i] {
            let ghost before = rev@;
            rev.push(x);
            assert(rev@.reverse() =~= seq![x] + before.reverse());
            assert(select(orig.take(i as int), keep@.take(i as int)).push(x) + before.reverse()
                =~= select(orig.take(i as int), keep@.take(i as int)) + (seq![x] + before.reverse()));
        }
    }
    assert(v@ =~= Seq::<T>::empty());
    assert(select(orig.take(0), keep@.take(0)) =~= Seq::<T>::empty());
    let ghost target = rev@.reverse();
    while rev.len() > 0
        invariant
            v@ + rev@.reverse() == target,
        decreases rev.len(),
    {
        let ghost before = rev@;
        let x = rev.pop().unwrap();
        v.push(x);
        assert(before.reverse() =~= seq![x] + rev@.reverse());
        assert(v@ + rev@.reverse() =~= target);
    }
    assert(v@ =~= target);
}

/// Flags of the links that do not belong to `name`.
pub open spec fn links_kept(ls: Seq<LinkView>, name: Seq<char>) -> Seq<bool> {
    Seq::new(ls.len(), |i: int| ls[i].param_key != name)
}

/// Whether a link of `ls` ties `name` to tag `id`.
pub open spec fn linked(ls: Seq<LinkView>, name: Seq<char>, id: i64) -> bool {
    exists|j: int| 0 <= j < ls.len() && (#[trigger] ls[j]).param_key == name && ls[j].tag_id == id
}

/// Whether a link of `ls` uses tag `id`.
pub open spec fn used(ls: Seq<LinkView>, id: i64) -> bool {
    exists|j: int| 0 <= j < ls.len() && (#[trigger] ls[j]).tag_id == id
}

/// Flags of the tags that remain once the links of `name` are gone: a
/// tag goes when `name` used it and no remaining link uses it.
pub open spec fn tags_kept(ts: Seq<TagView>, old_links: Seq<LinkView>, new_links: Seq<LinkView>, name: Seq<char>) -> Seq<bool> {
    Seq::new(
        ts.len(),
        |i: int| !(linked(old_links, name, ts[i].id) && !used(new_links, ts[i].id)),
    )
}

/// Flags of the rows of a table keyed by parameter name that do not belong to `name`.
pub open spec fn params_kept(ps: Seq<ParamView>, name: Seq<char>) -> Seq<bool> {
    Seq::new(ps.len(), |i: int| ps[i].key != name)
}

/// Flags of the version rows that do not belong to `name`.
pub open spec fn versions_kept(vs: Seq<VersionView>, name: Seq<char>) -> Seq<bool> {
    Seq::new(vs.len(), |i: int| vs[i].param_key != name)
}

/// Flags of the label rows that do not belong to `name`.
pub open spec fn labels_kept(ls: Seq<LabelView>, name: Seq<char>) -> Seq<bool> {
    Seq::new(ls.len(), |i: int| ls[i].param_key != name)
}

/// The link and tag tables once the links of `name` are dropped with the
/// tags only they used.
pub open spec fn spec_drop_links(s: StoreView, name: Seq<char>) -> (Seq<LinkView>, Seq<TagView>) {
    let links = select(s.links, links_kept(s.links, name));
    (links, select(s.tags, tags_kept(s.tags, s.links, links, name)))
}

proof fn lemma_used_select(ls: Seq<LinkView>, keep: Seq<bool>, id: i64)
    requires
        keep.len() == ls.len(),
    ensures
        used(select(ls, keep), id) <==> exists|j: int|
            0 <= j < ls.len() && keep[j] && (#[trigger] ls[j]).tag_id == id,
    decreases ls.len(),
{
    if ls.len() > 0 {
        let n = ls.len() - 1;
        let k2 = keep.take(n);
        lemma_used_select(ls.drop_last(), k2, id);
        let r = select(ls.drop_last(), k2);
        if used(select(ls, keep), id) {
            let j = choose|j: int| 0 <= j < select(ls, keep).len() && (#[trigger] select(ls, keep)[j]).tag_id == id;
            if keep[n] && j == r.len() {
                assert(ls[n].tag_id == id);
            } else {
                assert(r[j].tag_id == id);
                assert(used(r, id));
                let k = choose|k: int| 0 <= k < ls.drop_last().len() && k2[k] && (#[trigger] ls.drop_last()[k]).tag_id == id;
                assert(ls[k] == ls.drop_last()[k]);
            }
        }
        if exists|j: int| 0 <= j < ls.len() && keep[j] && (#[trigger] ls[j]).tag_id == id {
            let j = choose|j: int| 0 <= j < ls.len() && keep[j] && (#[trigger] ls[j]).tag_id == id;
            if j == n {
                assert(select(ls, keep)[r.len() as int] == ls[n]);
            } else {
                assert(ls.drop_last()[j] == ls[j]);
                assert(k2[j] == keep[j]);
                assert(used(r, id));
                let k = choose|k: int| 0 <= k < r.len() && (#[trigger] r[k]).tag_id == id;
                if keep[n] {
                    assert(select(ls, keep)[k] == r[k]);
                }
            }
        }
    }
}

impl ParamStore {
    /// Drops the links of `name` and the tags no other parameter uses.
    fn drop_links(&mut self, name: &str)
        ensures
            final(self)@.links == spec_drop_links(old(self)@, name@).0,
            final(self)@.tags == spec_drop_links(old(self)@, name@).1,
            final(self)@.params == old(self)@.params,
            final(self)@.versions == old(self)@.versions,
            final(self)@.labels == old(self)@.labels,
            final(self)@.next_tag_id == old(self)@.next_tag_id,
    {
        let ghost old_links = self@.links;
        let n = chars_of(name);
        let mut keep: Vec<bool> = Vec::new();
        let mut i: usize = 0;
        while i < self.param_tags.len()
            invariant
                i <= self.param_tags.len(),
                n@ == name@,
                self@.links == old_links,
                keep@ =~= links_kept(old_links, name@).take(i as int),
            decreases self.param_tags.len() - i,
        {
            let link = &self.param_tags[i];
            assert(old_links[i as int] == link@);
            let k = chars_of(link.param_key.as_str());
            keep.push(!chars_eq(&k, &n));
            i = i + 1;
        }
        assert(links_kept(old_links, name@).take(i as int) =~= links_kept(old_links, name@));
        let ghost new_links = select(old_links, keep@);
        let ghost old_tags = self@.tags;
        let mut tkeep: Vec<bool> = Vec::new();
        let mut t: usize = 0;
        while t < self.tags.len()
            invariant
                t <= self.tags.len(),
                self@.tags == old_tags,
                self@.links == old_links,
                keep@ == links_kept(old_links, name@),
                new_links == select(old_links, keep@),
                tkeep@ =~= tags_kept(old_tags, old_links, new_links, name@).take(t as int),
            decreases self.tags.len() - t,
        {
            let id = self.tags[t].id;
            assert(old_tags[t as int].id == id);
            let mut in_old = false;
            let mut in_use = false;
            let mut m: usize = 0;
            while m < self.param_tags.len()
                invariant
                    m <= self.param_tags.len(),
                    self@.links == old_links,
                    keep@ == links_kept(old_links, name@),
                    in_old == exists|j: int| 0 <= j < m && (#[trigger] old_links[j]).param_key == name@ && old_links[j].tag_id == id,
                    in_use == exists|j: int| 0 <= j < m && keep@[j] && (#[trigger] old_links[j]).tag_id == id,
                decreases self.param_tags.len() - m,
            {
                assert(old_links[m as int] == self.param_tags@[m as int]@);
                if self.param_tags[m].tag_id == id {
                    if keep[m] {
                        in_use = true;
                    } else {
                        in_old = true;
                    }
                }
                m = m + 1;
            }
            proof {
                lemma_used_select(old_links, keep@, id);
            }
            tkeep.push(!(in_old && !in_use));
            t = t + 1;
        }
        assert(tags_kept(old_tags, old_links, new_links, name@).take(t as int) =~= tags_kept(old_tags, old_links, new_links, name@));
        let ghost links_before = self.param_tags@;
        retain_flagged(&mut self.param_tags, &keep);
        proof {
            lemma_select_views(links_before, keep@);
        }
        let ghost tags_before = self.tags@;
        retain_flagged(&mut self.tags, &tkeep);
        proof {
            lemma_select_views(tags_before, tkeep@);
        }
    }

    /// Deletes parameter `name` with its versions, labels and tag links,
    /// and the tags no other parameter uses; `false` when there is no such
    /// parameter, and then nothing changes.
    pub fn delete_parameter_named(&mut self, name: &str) -> (res: bool)
        ensures
            res == (param_index(old(self)@.params, name@) >= 0),
            !res ==> final(self)@ == old(self)@,
            res ==> final(self)@ == spec_after_delete(old(self)@, name@),
    {
        if self.find_param(name).is_none() {
            return false;
        }
        let n = chars_of(name);
        let mut lkeep: Vec<bool> = Vec::new();
        let mut i: usize = 0;
        while i < self.labels.len()
            invariant
                i <= self.labels.len(),
                n@ == name@,
                lkeep@ =~= labels_kept(self@.labels, name@).take(i as int),
            decreases self.labels.len() - i,
        {
            assert(self@.labels[i as int] == self.labels@[i as int]@);
            let k = chars_of(self.labels[i].param_key.as_str());
            lkeep.push(!chars_eq(&k, &n));
            i = i + 1;
        }
        assert(labels_kept(self@.labels, name@).take(i as int) =~= labels_kept(self@.labels, name@));
        let ghost l0 = self.labels@;
        retain_flagged(&mut self.labels, &lkeep);
        proof { lemma_select_views(l0, lkeep@); }
        let mut vkeep: Vec<bool> = Vec::new();
        let mut i: usize = 0;
        while i < self.versions.len()
            invariant
                i <= self.versions.len(),
                n@ == name@,
                vkeep@ =~= versions_kept(self@.versions, name@).take(i as int),
            decreases self.versions.len() - i,
        {
            assert(self@.versions[i as int] == self.versions@[i as int]@);
            let k = chars_of(self.versions[i].param_key.as_str());
            vkeep.push(!chars_eq(&k, &n));
            i = i + 1;
        }
        assert(versions_kept(self@.versions, name@).take(i as int) =~= versions_kept(self@.versions, name@));
        let ghost v0 = self.versions@;
        retain_flagged(&mut self.versions, &vkeep);
        proof { lemma_select_views(v0, vkeep@); }
        let mut pkeep: Vec<bool> = Vec::new();
        let mut i: usize = 0;
        while i < self.params.len()
            invariant
                i <= self.params.len(),
                n@ == name@,
                pkeep@ =~= params_kept(self@.params, name@).take(i as int),
            decreases self.params.len() - i,
        {
            assert(self@.params[i as int] == self.params@[i as int]@);
            let k = chars_of(self.params[i].key.as_str());
            pkeep.push(!chars_eq(&k, &n));
            i = i + 1;
        }
        assert(params_kept(self@.params, name@).take(i as int) =~= params_kept(self@.params, name@));
        let ghost p0 = self.params@;
        retain_flagged(&mut self.params, &pkeep);
        proof { lemma_select_views(p0, pkeep@); }
        self.drop_links(name);
        true
    }
}

/// The store once parameter `name` is deleted: its parameter, version and
/// label rows are gone, and so are its links and the tags only it used.
pub open spec fn spec_after_delete(s: StoreView, name: Seq<char>) -> StoreView {
    StoreView {
        params: select(s.params, params_kept(s.params, name)),
        versions: select(s.versions, versions_kept(s.versions, name)),
        labels: select(s.labels, labels_kept(s.labels, name)),
        links: spec_drop_links(s, name).0,
        tags: spec_drop_links(s, name).1,
        next_tag_id: s.next_tag_id,
    }
}


/// The largest id of a tag row with `key` and `value`, if any.
pub open spec fn max_tag_id(ts: Seq<TagView>, key: Seq<char>, value: Seq<char>) -> Option<i64>
    decreases ts.len(),
{
    if ts.len() == 0 {
        None
    } else {
        let r = max_tag_id(ts.drop_last(), key, value);
        if ts.last().key == key && ts.last().value == value {
            match r {
                Some(m) => if m >= ts.last().id { Some(m) } else { Some(ts.last().id) },
                None => Some(ts.last().id),
            }
        } else {
            r
        }
    }
}

/// The link and tag tables, and the next tag id, once the tags of `ts` are
/// added for `name` one by one: each gets a new tag row with the next id,
/// and a link to the tag row with its key and value that has the largest id.
pub open spec fn spec_add_tags(links: Seq<LinkView>, tags: Seq<TagView>, next: i64, name: Seq<char>, ts: Seq<Tag>) -> (Seq<LinkView>, Seq<TagView>, int)
    decreases ts.len(),
{
    if ts.len() == 0 {
        (links, tags, next as int)
    } else {
        let (l, t, n) = spec_add_tags(links, tags, next, name, ts.drop_last());
        let t2 = t.push(TagView { id: n as i64, key: ts.last().key@, value: ts.last().value@ });
        let id = max_tag_id(t2, ts.last().key@, ts.last().value@).unwrap();
        (l.push(LinkView { param_key: name, tag_id: id }), t2, n + 1)
    }
}

/// The link and tag tables once the tags of `name` are replaced by `ts`.
pub open spec fn spec_replace_tags(s: StoreView, name: Seq<char>, ts: Seq<Tag>) -> (Seq<LinkView>, Seq<TagView>, int) {
    let (links, tags) = spec_drop_links(s, name);
    spec_add_tags(links, tags, s.next_tag_id, name, ts)
}

proof fn lemma_add_tags_next(links: Seq<LinkView>, tags: Seq<TagView>, next: i64, name: Seq<char>, ts: Seq<Tag>)
    ensures
        spec_add_tags(links, tags, next, name, ts).2 == next + ts.len(),
    decreases ts.len(),
{
    if ts.len() > 0 {
        lemma_add_tags_next(links, tags, next, name, ts.drop_last());
    }
}

pub(crate) proof fn lemma_max_tag_id_push(ts: Seq<TagView>, t: TagView)
    ensures
        max_tag_id(ts.push(t), t.key, t.value).is_some(),
{
    assert(ts.push(t).drop_last() =~= ts);
}

impl ParamStore {
    /// The largest id of a tag row with `key` and `value`.
    fn newest_tag_id(&self, key: &str, value: &str) -> (res: Option<i64>)
        ensures
            res == max_tag_id(self@.tags, key@, value@),
    {
        let kc = chars_of(key);
        let vc = chars_of(value);
        let mut best: Option<i64> = None;
        let mut i: usize = 0;
        while i < self.tags.len()
            invariant
                i <= self.tags.len(),
                kc@ == key@,
                vc@ == value@,
                best == max_tag_id(self@.tags.take(i as int), key@, value@),
            decreases self.tags.len() - i,
        {
            let row = &self.tags[i];
            assert(self@.tags.take(i + 1).drop_last() =~= self@.tags.take(i as int));
            assert(self@.tags.take(i + 1).last() == row@);
            let k = chars_of(row.key.as_str());
            let v = chars_of(row.value.as_str());
            if chars_eq(&k, &kc) && chars_eq(&v, &vc) {
                best = match best {
                    Some(m) => if m >= row.id { Some(m) } else { Some(row.id) },
                    None => Some(row.id),
                };
            }
            i = i + 1;
        }
        assert(self@.tags.take(i as int) =~= self@.tags);
        best
    }

    /// Replaces the tags of parameter `name` by `tags`: its links go, with
    /// the tags no other parameter uses, then each tag of `tags` gets a new
    /// tag row and a link. When tag ids are fresh, the parameter ends with
    /// exactly the (key, value) pairs of `tags`, every other parameter keeps
    /// its pairs, and tag ids stay fresh.
    pub fn replace_tags(&mut self, name: &str, tags: &[Tag])
        requires
            old(self).next_tag_id + tags@.len() <= i64::MAX,
        ensures
            (final(self)@.links, final(self)@.tags, final(self)@.next_tag_id as int) == spec_replace_tags(
                old(self)@,
                name@,
                tags@,
            ),
            final(self)@.params == old(self)@.params,
            final(self)@.versions == old(self)@.versions,
            final(self)@.labels == old(self)@.labels,
            tags_fresh(old(self)@.tags, old(self)@.next_tag_id as int) && links_below(old(self)@.links, old(self)@.next_tag_id as int)
                ==> {
                &&& tag_pairs(final(self)@.links, final(self)@.tags, name@) == given_pairs(tags@)
                &&& forall|other: Seq<char>| other != name@ ==> #[trigger] tag_pairs(final(self)@.links, final(self)@.tags, other)
                    == tag_pairs(old(self)@.links, old(self)@.tags, other)
                &&& tags_fresh(final(self)@.tags, final(self)@.next_tag_id as int)
                &&& links_below(final(self)@.links, final(self)@.next_tag_id as int)
            },
    {
        let ghost s0 = self@;
        proof {
            if tags_fresh(s0.tags, s0.next_tag_id as int) && links_below(s0.links, s0.next_tag_id as int) {
                lemma_replace_tags_pairs(s0, name@, tags@);
            }
        }
        self.drop_links(name);
        let ghost dropped = self@;
        let mut i: usize = 0;
        while i < tags.len()
            invariant
                i <= tags.len(),
                dropped.next_tag_id + tags@.len() <= i64::MAX,
                (self@.links, self@.tags, self@.next_tag_id as int) == spec_add_tags(
                    dropped.links,
                    dropped.tags,
                    dropped.next_tag_id,
                    name@,
                    tags@.take(i as int),
                ),
                self@.next_tag_id == dropped.next_tag_id + i,
                self@.params == old(self)@.params,
                self@.versions == old(self)@.versions,
                self@.labels == old(self)@.labels,
            decreases tags.len() - i,
        {
            let tag = &tags[i];
            assert(tags@.take(i + 1).drop_last() =~= tags@.take(i as int));
            assert(tags@.take(i + 1).last() == *tag);
            let id = self.next_tag_id;
            let ghost before = self@;
            self.tags.push(TagRow { id, key: tag.key.clone(), value: tag.value.clone() });
            assert(self@.tags =~= before.tags.push(TagView { id, key: tag.key@, value: tag.value@ }));
            proof {
                lemma_max_tag_id_push(before.tags, TagView { id, key: tag.key@, value: tag.value@ });
            }
            let newest = self.newest_tag_id(tag.key.as_str(), tag.value.as_str());
            let tag_id = newest.unwrap();
            let ghost mid = self@;
            self.param_tags.push(ParamTagRow { param_key: name.to_owned(), tag_id });
            assert(self@.links =~= mid.links.push(LinkView { param_key: name@, tag_id }));
            self.next_tag_id = id + 1;
            i = i + 1;
        }
        assert(tags@.take(i as int) =~= tags@);
    }
}

} // verus!
