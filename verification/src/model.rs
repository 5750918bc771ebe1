use vstd::prelude::*;
use crate::num::{decimal_text, format_i64, parse_i64, spec_parse_signed};
use crate::text::{chars_of, concat, spec_starts_with, starts_with, string_from_chars};

verus! {

/// The type of a parameter.
#[derive(PartialEq, Eq, Structural, Clone, Copy, Debug)]
pub enum ParameterType {
    SecureString,
    String,
    StringList,
}

/// The wire name of a parameter type.
pub open spec fn parameter_type_name(t: ParameterType) -> Seq<char> {
    match t {
        ParameterType::SecureString => "SecureString"@,
        ParameterType::String => "String"@,
        ParameterType::StringList => "StringList"@,
    }
}

impl ParameterType {
    /// The wire name of this type.
    pub fn as_str(&self) -> (res: &'static str)
        ensures
            res@ == parameter_type_name(*self),
    {
        match self {
            ParameterType::SecureString => "SecureString",
            ParameterType::String => "String",
            ParameterType::StringList => "StringList",
        }
    }
}

/// A tag of a parameter: a key and a value.
pub struct Tag {
    pub key: String,
    pub value: String,
}

/// A filter of the listing requests: a key, an option and the values to
/// compare with.
pub struct ParameterStringFilter {
    pub key: String,
    pub option: Option<String>,
    pub values: Option<Vec<String>>,
}

/// Which version of a parameter a request names: the latest, a version
/// number (`name:3`) or a label (`name:prod`).
pub enum ParameterSelector {
    Latest(String),
    Version { name: String, version: i64 },
    Label { name: String, label: String },
}

/// What a selector names, as text.
pub enum SelectorView {
    Latest(Seq<char>),
    Version { name: Seq<char>, version: i64 },
    Label { name: Seq<char>, label: Seq<char> },
}

impl View for ParameterSelector {
    type V = SelectorView;

    open spec fn view(&self) -> SelectorView {
        match self {
            ParameterSelector::Latest(n) => SelectorView::Latest(n@),
            ParameterSelector::Version { name, version } => SelectorView::Version {
                name: name@,
                version: *version,
            },
            ParameterSelector::Label { name, label } => SelectorView::Label {
                name: name@,
                label: label@,
            },
        }
    }
}

impl SelectorView {
    /// The parameter name a selector names.
    pub open spec fn name(self) -> Seq<char> {
        match self {
            SelectorView::Latest(n) => n,
            SelectorView::Version { name, .. } => name,
            SelectorView::Label { name, .. } => name,
        }
    }

    /// The selector text that answers carry: `:3` or `:prod`, none for the latest.
    pub open spec fn suffix(self) -> Option<Seq<char>> {
        match self {
            SelectorView::Latest(_) => None,
            SelectorView::Version { version, .. } => Some(seq![':'] + decimal_text(version as int)),
            SelectorView::Label { label, .. } => Some(seq![':'] + label),
        }
    }
}

impl ParameterSelector {
    /// The parameter name this selector names.
    pub fn name(&self) -> (res: &str)
        ensures
            res@ == self@.name(),
    {
        match self {
            ParameterSelector::Latest(name) => name.as_str(),
            ParameterSelector::Version { name, .. } => name.as_str(),
            ParameterSelector::Label { name, .. } => name.as_str(),
        }
    }

    /// The selector text that answers carry: `:3` or `:prod`, none for the latest.
    pub fn selector(&self) -> (res: Option<String>)
        ensures
            res.is_some() == self@.suffix().is_some(),
            res.is_some() ==> res.unwrap()@ == self@.suffix().unwrap(),
    {
        proof {
            reveal_strlit(":");
        }
        match self {
            ParameterSelector::Latest(_) => None,
            ParameterSelector::Version { version, .. } => {
                let v = format_i64(*version);
                Some(concat(":", v.as_str()))
            },
            ParameterSelector::Label { label, .. } => Some(concat(":", label.as_str())),
        }
    }
}

/// The index of the last `c` in `s`, or -1.
pub open spec fn last_index_of(s: Seq<char>, c: char) -> int
    decreases s.len(),
{
    if s.len() == 0 {
        -1
    } else if s.last() == c {
        s.len() - 1
    } else {
        last_index_of(s.drop_last(), c)
    }
}

/// What `parse_selector` reads from a requested name: text after the last
/// `:` selects a version when it is a number and a label otherwise, unless
/// it is empty or the name before it starts with `arn:`.
pub open spec fn spec_parse_selector(v: Seq<char>) -> SelectorView {
    let i = last_index_of(v, ':');
    let name = v.take(i);
    let sel = v.skip(i + 1);
    if i >= 0 && !spec_starts_with(name, "arn:"@) && sel.len() > 0 {
        match spec_parse_signed(sel) {
            Some(n) => if i64::MIN <= n <= i64::MAX {
                SelectorView::Version { name, version: n as i64 }
            } else {
                SelectorView::Label { name, label: sel }
            },
            None => SelectorView::Label { name, label: sel },
        }
    } else {
        SelectorView::Latest(v)
    }
}

proof fn lemma_last_index_of(s: Seq<char>, c: char)
    ensures
        -1 <= last_index_of(s, c) < s.len(),
        last_index_of(s, c) >= 0 ==> s[last_index_of(s, c)] == c,
        forall|j: int| last_index_of(s, c) < j < s.len() ==> s[j] != c,
    decreases s.len(),
{
    if s.len() > 0 && s.last() != c {
        lemma_last_index_of(s.drop_last(), c);
        assert forall|j: int| last_index_of(s, c) < j < s.len() implies s[j] != c by {
            if j < s.len() - 1 {
                assert(s[j] == s.drop_last()[j]);
            }
        }
    }
}

/// What `parse_selector` reads of a requested name gives the name back:
/// a latest or label selector rebuilds the text from its name and its
/// selector text; a version selector's text is `:` and the version's
/// decimal text, and the request was its name, `:` and a text that reads
/// as that version.
pub proof fn lemma_selector_round_trip(v: Seq<char>)
    ensures
        match spec_parse_selector(v) {
            SelectorView::Latest(n) => n == v && spec_parse_selector(v).suffix() is None,
            SelectorView::Label { name, label } => v == name + spec_parse_selector(v).suffix().unwrap()
                && spec_parse_selector(v).suffix() == Some(seq![':'] + label),
            SelectorView::Version { name, version } => spec_parse_selector(v).suffix() == Some(
                seq![':'] + decimal_text(version as int),
            ) && spec_parse_signed(decimal_text(version as int)) == Some(version as int)
                && exists|b: Seq<char>| v == name + seq![':'] + b && #[trigger] spec_parse_signed(b) == Some(
                version as int,
            ),
        },
{
    lemma_last_index_of(v, ':');
    let i = last_index_of(v, ':');
    if i >= 0 {
        assert(v =~= v.take(i) + seq![':'] + v.skip(i + 1));
    }
    match spec_parse_selector(v) {
        SelectorView::Version { name, version } => {
            crate::num::lemma_parse_decimal_text(version as int);
            assert(spec_parse_signed(v.skip(i + 1)) == Some(version as int));
        },
        _ => {},
    }
}

/// Reads which version of a parameter a requested name selects.
pub fn parse_selector(value: &str) -> (res: ParameterSelector)
    ensures
        res@ == spec_parse_selector(value@),
{
    let chars = chars_of(value);
    let mut i: usize = chars.len();
    while i > 0
        invariant
            i <= chars.len(),
            chars@ == value@,
            forall|j: int| i <= j < chars.len() ==> chars@[j] != ':',
        ensures
            i <= chars.len(),
            forall|j: int| i <= j < chars.len() ==> chars@[j] != ':',
            i == 0 || chars@[i - 1] == ':',
        decreases i,
    {
        if chars[i - 1] == ':' {
            break;
        }
        i = i - 1;
    }
    proof {
        lemma_last_index_of(value@, ':');
    }
    if i == 0 && (chars.len() == 0 || chars[0] != ':') {
        proof {
            let k = last_index_of(value@, ':');
            if k >= 0 {
                assert(value@[k] == ':');
            }
        }
        return ParameterSelector::Latest(value.to_owned());
    }
    let at: usize = if i == 0 { 0 } else { i - 1 };
    proof {
        let k = last_index_of(value@, ':');
        assert(chars@[at as int] == ':');
        if k > at {
            assert(chars@[k] == ':');
        }
        if k < at {
            assert(value@[at as int] == ':');
        }
        assert(k == at);
    }
    let mut name_chars: Vec<char> = Vec::new();
    let mut j: usize = 0;
    while j < at
        invariant
            j <= at < chars.len(),
            name_chars@ == chars@.take(j as int),
        decreases at - j,
    {
        name_chars.push(chars[j]);
        assert(chars@.take(j + 1) =~= chars@.take(j as int).push(chars@[j as int]));
        j = j + 1;
    }
    let mut sel_chars: Vec<char> = Vec::new();
    let mut k: usize = at + 1;
    while k < chars.len()
        invariant
            at + 1 <= k <= chars.len(),
            sel_chars@ == chars@.subrange(at + 1, k as int),
        decreases chars.len() - k,
    {
        sel_chars.push(chars[k]);
        assert(chars@.subrange(at + 1, k + 1) =~= chars@.subrange(at + 1, k as int).push(
            chars@[k as int],
        ));
        k = k + 1;
    }
    assert(sel_chars@ =~= value@.skip(at + 1));
    let name = string_from_chars(&name_chars);
    let sel = string_from_chars(&sel_chars);
    if starts_with(name.as_str(), "arn:") || sel_chars.len() == 0 {
        return ParameterSelector::Latest(value.to_owned());
    }
    match parse_i64(sel.as_str()) {
        Some(version) => ParameterSelector::Version { name, version },
        None => ParameterSelector::Label { name, label: sel },
    }
}

/// The ARN of a parameter.
pub open spec fn spec_arn(name: Seq<char>) -> Seq<char> {
    "arn:aws:ssm:local:000000000000:parameter/"@ + name
}

/// The ARN of a parameter.
pub fn arn(name: &str) -> (res: String)
    ensures
        res@ == spec_arn(name@),
{
    concat("arn:aws:ssm:local:000000000000:parameter/", name)
}

/// The associated data that binds an encrypted value to its parameter,
/// version and type.
pub open spec fn spec_value_aad(name: Seq<char>, version: i64, parameter_type: Seq<char>) -> Seq<char> {
    name + seq!['\0'] + decimal_text(version as int) + seq!['\0'] + parameter_type
}

/// The associated data that binds an encrypted value to its parameter,
/// version and type.
pub fn value_aad(name: &str, version: i64, parameter_type: &str) -> (res: String)
    ensures
        res@ == spec_value_aad(name@, version, parameter_type@),
{
    proof {
        reveal_strlit("\0");
    }
    let v = format_i64(version);
    let a = concat(name, "\0");
    let b = concat(a.as_str(), v.as_str());
    let c = concat(b.as_str(), "\0");
    concat(c.as_str(), parameter_type)
}

} // verus!
