//! The rule catalog: the rule model and its loader from a parsed JSON document.
use vstd::prelude::*;
use vstd::string::StrSliceExecFns;
use crate::json::JsonValue;
use crate::pattern::{Pattern, regex_compiles, regex_group_names};
use crate::text::{same_text, contains_text, occurs_in};

verus! {

/// Severity of a finding, in ascending order.
#[derive(Clone, Copy, PartialEq, Eq, PartialOrd, Ord, Hash, Debug, Structural)]
pub enum Criticity {
    Warning,
    Low,
    Medium,
    High,
    Critical,
}

/// Why a catalog could not be loaded.
#[derive(Clone, Copy, PartialEq, Eq, Debug, Structural)]
pub enum LoadError {
    /// The document is not an array.
    NotAnArray,
    /// A rule is not an object of four to eight entries of the expected types.
    Malformed,
    /// A rule's regex or one of its whitelist patterns does not compile.
    InvalidRegex,
    /// A rule asks for a permission that is not known.
    UnknownPermission,
    /// A named capture `fc1` or `fc2` has no `{fc1}` or `{fc2}` in the forward check.
    MissingPlaceholder,
    /// A capture `fc2` is declared without a capture `fc1`.
    MissingFirstCapture,
    /// The criticity names no known severity.
    UnknownCriticity,
}

pub open spec fn ascii_lower(c: char) -> char {
    if 'A' <= c && c <= 'Z' {
        ((c as u8) + 32) as char
    } else {
        c
    }
}

/// Whether `s` spells `name` (given in lower case) up to the case of ASCII letters.
pub open spec fn spells(s: Seq<char>, name: Seq<char>) -> bool {
    s.len() == name.len() && forall|i: int| 0 <= i < s.len() ==> ascii_lower(#[trigger] s[i]) == name[i]
}

/// The severity that `s` names, whatever the case of its letters.
pub open spec fn criticity_of(s: Seq<char>) -> Option<Criticity> {
    if spells(s, "warning"@) {
        Some(Criticity::Warning)
    } else if spells(s, "low"@) {
        Some(Criticity::Low)
    } else if spells(s, "medium"@) {
        Some(Criticity::Medium)
    } else if spells(s, "high"@) {
        Some(Criticity::High)
    } else if spells(s, "critical"@) {
        Some(Criticity::Critical)
    } else {
        None
    }
}

fn lower_char(c: char) -> (r: char)
    ensures
        r == ascii_lower(c),
{
    if 'A' <= c && c <= 'Z' {
        ((c as u8) + 32) as char
    } else {
        c
    }
}

fn spells_exec(s: &str, name: &str) -> (r: bool)
    ensures
        r == spells(s@, name@),
{
    let n = s.unicode_len();
    if n != name.unicode_len() {
        return false;
    }
    let mut i: usize = 0;
    while i < n
        invariant
            n == s@.len(),
            n == name@.len(),
            i <= n,
            forall|j: int| 0 <= j < i ==> ascii_lower(#[trigger] s@[j]) == name@[j],
        decreases n - i,
    {
        if lower_char(s.get_char(i)) != name.get_char(i) {
            return false;
        }
        i = i + 1;
    }
    true
}

impl Criticity {
    /// Reads a severity name, ignoring the case of its letters.
    pub fn parse(s: &str) -> (r: Option<Criticity>)
        ensures
            r == criticity_of(s@),
    {
        if spells_exec(s, "warning") {
            Some(Criticity::Warning)
        } else if spells_exec(s, "low") {
            Some(Criticity::Low)
        } else if spells_exec(s, "medium") {
            Some(Criticity::Medium)
        } else if spells_exec(s, "high") {
            Some(Criticity::High)
        } else if spells_exec(s, "critical") {
            Some(Criticity::Critical)
        } else {
            None
        }
    }
}


/// A rule: a regular expression with the conditions under which its matches are reported.
pub struct Rule {
    regex: Pattern,
    permissions: Vec<String>,
    forward_check: Option<String>,
    max_sdk: Option<u64>,
    whitelist: Vec<Pattern>,
    label: String,
    description: String,
    criticity: Criticity,
}

/// What a rule is, as plain values; each pattern is given by its text.
pub struct RuleView {
    pub regex: Seq<char>,
    pub permissions: Seq<Seq<char>>,
    pub forward_check: Option<Seq<char>>,
    pub max_sdk: Option<nat>,
    pub whitelist: Seq<Seq<char>>,
    pub label: Seq<char>,
    pub description: Seq<char>,
    pub criticity: Criticity,
}

pub open spec fn texts(v: Seq<String>) -> Seq<Seq<char>> {
    v.map_values(|s: String| s@)
}

pub open spec fn sources(v: Seq<Pattern>) -> Seq<Seq<char>> {
    v.map_values(|p: Pattern| p.source())
}

pub open spec fn opt_text(o: Option<String>) -> Option<Seq<char>> {
    match o {
        Some(s) => Some(s@),
        None => None,
    }
}

impl View for Rule {
    type V = RuleView;

    closed spec fn view(&self) -> RuleView {
        RuleView {
            regex: self.regex.source(),
            permissions: texts(self.permissions@),
            forward_check: opt_text(self.forward_check),
            max_sdk: match self.max_sdk {
                Some(n) => Some(n as nat),
                None => None,
            },
            whitelist: sources(self.whitelist@),
            label: self.label@,
            description: self.description@,
            criticity: self.criticity,
        }
    }
}

impl Rule {
    pub fn get_regex(&self) -> (r: &Pattern)
        ensures
            r.source() == self@.regex,
    {
        &self.regex
    }

    pub fn get_permissions(&self) -> (r: &Vec<String>)
        ensures
            texts(r@) == self@.permissions,
    {
        &self.permissions
    }

    pub fn get_forward_check(&self) -> (r: Option<&String>)
        ensures
            match r {
                Some(s) => self@.forward_check == Some(s@),
                None => self@.forward_check is None,
            },
    {
        match &self.forward_check {
            Some(s) => Some(s),
            None => None,
        }
    }

    pub fn get_max_sdk(&self) -> (r: Option<u64>)
        ensures
            match r {
                Some(n) => self@.max_sdk == Some(n as nat),
                None => self@.max_sdk is None,
            },
    {
        self.max_sdk
    }

    pub fn get_label(&self) -> (r: &str)
        ensures
            r@ == self@.label,
    {
        self.label.as_str()
    }

    pub fn get_description(&self) -> (r: &str)
        ensures
            r@ == self@.description,
    {
        self.description.as_str()
    }

    pub fn get_criticity(&self) -> (r: Criticity)
        ensures
            r == self@.criticity,
    {
        self.criticity
    }

    pub fn get_whitelist(&self) -> (r: &Vec<Pattern>)
        ensures
            sources(r@) == self@.whitelist,
    {
        &self.whitelist
    }
}

/// The value under `key` in the entries of an object.
pub open spec fn field(entries: Seq<(String, JsonValue)>, key: Seq<char>) -> Option<JsonValue>
    decreases entries.len(),
{
    if entries.len() == 0 {
        None
    } else if entries[0].0@ == key {
        Some(entries[0].1)
    } else {
        field(entries.drop_first(), key)
    }
}

/// The permissions listed in `v`, or the first reason that the list is refused.
pub open spec fn permissions_spec(v: Seq<JsonValue>, known: Seq<Seq<char>>) -> Result<
    Seq<Seq<char>>,
    LoadError,
>
    decreases v.len(),
{
    if v.len() == 0 {
        Ok(seq![])
    } else {
        match permissions_spec(v.drop_last(), known) {
            Err(e) => Err(e),
            Ok(ps) => match v.last() {
                JsonValue::Str(p) => if known.contains(p@) {
                    Ok(ps.push(p@))
                } else {
                    Err(LoadError::UnknownPermission)
                },
                _ => Err(LoadError::Malformed),
            },
        }
    }
}

/// The whitelist patterns listed in `v`, or the first reason that the list is refused.
pub open spec fn whitelist_spec(v: Seq<JsonValue>) -> Result<Seq<Seq<char>>, LoadError>
    decreases v.len(),
{
    if v.len() == 0 {
        Ok(seq![])
    } else {
        match whitelist_spec(v.drop_last()) {
            Err(e) => Err(e),
            Ok(ws) => match v.last() {
                JsonValue::Str(w) => if regex_compiles(w@) {
                    Ok(ws.push(w@))
                } else {
                    Err(LoadError::InvalidRegex)
                },
                _ => Err(LoadError::Malformed),
            },
        }
    }
}

/// Whether the regex `regex` declares a group named `name`.
pub open spec fn declares(regex: Seq<char>, name: Seq<char>) -> bool {
    regex_group_names(regex).contains(Some(name))
}

/// The forward check of a rule whose regex is `regex`, or why it is refused.
pub open spec fn forward_spec(fc: Option<JsonValue>, regex: Seq<char>) -> Result<
    Option<Seq<char>>,
    LoadError,
> {
    match fc {
        None => Ok(None),
        Some(JsonValue::Str(s)) => if (declares(regex, "fc1"@) && !occurs_in("{fc1}"@, s@)) || (
        declares(regex, "fc2"@) && !occurs_in("{fc2}"@, s@)) {
            Err(LoadError::MissingPlaceholder)
        } else if declares(regex, "fc2"@) && !declares(regex, "fc1"@) {
            Err(LoadError::MissingFirstCapture)
        } else {
            Ok(Some(s@))
        },
        Some(_) => Err(LoadError::Malformed),
    }
}

pub open spec fn string_field(entries: Seq<(String, JsonValue)>, key: Seq<char>) -> Option<
    Seq<char>,
> {
    match field(entries, key) {
        Some(JsonValue::Str(s)) => Some(s@),
        _ => None,
    }
}

pub open spec fn max_sdk_spec(v: Option<JsonValue>) -> Result<Option<nat>, LoadError> {
    match v {
        None => Ok(None),
        Some(JsonValue::Unsigned(n)) => Ok(Some(n as nat)),
        Some(_) => Err(LoadError::Malformed),
    }
}

pub open spec fn list_permissions(v: Option<JsonValue>, known: Seq<Seq<char>>) -> Result<
    Seq<Seq<char>>,
    LoadError,
> {
    match v {
        None => Ok(seq![]),
        Some(JsonValue::Array(a)) => permissions_spec(a@, known),
        Some(_) => Err(LoadError::Malformed),
    }
}

pub open spec fn list_whitelist(v: Option<JsonValue>) -> Result<Seq<Seq<char>>, LoadError> {
    match v {
        None => Ok(seq![]),
        Some(JsonValue::Array(a)) => whitelist_spec(a@),
        Some(_) => Err(LoadError::Malformed),
    }
}

pub open spec fn criticity_spec(v: Option<JsonValue>) -> Result<Criticity, LoadError> {
    match v {
        Some(JsonValue::Str(c)) => match criticity_of(c@) {
            Some(k) => Ok(k),
            None => Err(LoadError::UnknownCriticity),
        },
        _ => Err(LoadError::Malformed),
    }
}

/// The rule that one catalog entry describes, checked in this order: shape, regex,
/// `max_sdk`, permissions, forward check, label, description, criticity, whitelist.
pub open spec fn rule_spec(entry: JsonValue, known: Seq<Seq<char>>) -> Result<RuleView, LoadError> {
    match entry {
        JsonValue::Object(o) => {
            let e = o@;
            if e.len() < 4 || e.len() > 8 {
                Err(LoadError::Malformed)
            } else {
                match string_field(e, "regex"@) {
                    None => Err(LoadError::Malformed),
                    Some(regex) => if !regex_compiles(regex) {
                        Err(LoadError::InvalidRegex)
                    } else {
                        match max_sdk_spec(field(e, "max_sdk"@)) {
                            Err(x) => Err(x),
                            Ok(max_sdk) => match list_permissions(field(e, "permissions"@), known) {
                                Err(x) => Err(x),
                                Ok(permissions) => match forward_spec(
                                    field(e, "forward_check"@),
                                    regex,
                                ) {
                                    Err(x) => Err(x),
                                    Ok(forward_check) => match (
                                        string_field(e, "label"@),
                                        string_field(e, "description"@),
                                    ) {
                                        (Some(label), Some(description)) => match criticity_spec(
                                            field(e, "criticity"@),
                                        ) {
                                            Err(x) => Err(x),
                                            Ok(criticity) => match list_whitelist(
                                                field(e, "whitelist"@),
                                            ) {
                                                Err(x) => Err(x),
                                                Ok(whitelist) => Ok(
                                                    RuleView {
                                                        regex,
                                                        permissions,
                                                        forward_check,
                                                        max_sdk,
                                                        whitelist,
                                                        label,
                                                        description,
                                                        criticity,
                                                    },
                                                ),
                                            },
                                        },
                                        _ => Err(LoadError::Malformed),
                                    },
                                },
                            },
                        }
                    },
                }
            }
        },
        _ => Err(LoadError::Malformed),
    }
}

/// The rules of the entries `v`, in order, or the error of the first entry refused.
pub open spec fn rules_spec(v: Seq<JsonValue>, known: Seq<Seq<char>>) -> Result<
    Seq<RuleView>,
    LoadError,
>
    decreases v.len(),
{
    if v.len() == 0 {
        Ok(seq![])
    } else {
        match rules_spec(v.drop_last(), known) {
            Err(e) => Err(e),
            Ok(rs) => match rule_spec(v.last(), known) {
                Err(e) => Err(e),
                Ok(r) => Ok(rs.push(r)),
            },
        }
    }
}

/// The catalog that `doc` describes, given the permission names that are known.
pub open spec fn catalog_spec(doc: JsonValue, known: Seq<Seq<char>>) -> Result<
    Seq<RuleView>,
    LoadError,
> {
    match doc {
        JsonValue::Array(v) => rules_spec(v@, known),
        _ => Err(LoadError::NotAnArray),
    }
}

pub open spec fn views(rules: Seq<Rule>) -> Seq<RuleView> {
    rules.map_values(|r: Rule| r@)
}


fn get_field<'a>(entries: &'a Vec<(String, JsonValue)>, key: &str) -> (r: Option<&'a JsonValue>)
    ensures
        match r {
            Some(v) => field(entries@, key@) == Some(*v),
            None => field(entries@, key@) is None,
        },
{
    let mut i: usize = 0;
    assert(entries@.subrange(0, entries@.len() as int) =~= entries@);
    while i < entries.len()
        invariant
            i <= entries@.len(),
            field(entries@, key@) == field(entries@.subrange(i as int, entries@.len() as int), key@),
        decreases entries@.len() - i,
    {
        let ghost rest = entries@.subrange(i as int, entries@.len() as int);
        assert(rest.drop_first() =~= entries@.subrange(i + 1, entries@.len() as int));
        if same_text(entries[i].0.as_str(), key) {
            return Some(&entries[i].1);
        }
        i = i + 1;
    }
    None
}

fn get_string<'a>(entries: &'a Vec<(String, JsonValue)>, key: &str) -> (r: Option<&'a String>)
    ensures
        match r {
            Some(s) => string_field(entries@, key@) == Some(s@),
            None => string_field(entries@, key@) is None,
        },
{
    match get_field(entries, key) {
        Some(JsonValue::Str(s)) => Some(s),
        _ => None,
    }
}

fn is_known(p: &str, known: &Vec<String>) -> (r: bool)
    ensures
        r == texts(known@).contains(p@),
{
    let mut i: usize = 0;
    while i < known.len()
        invariant
            i <= known@.len(),
            forall|j: int| 0 <= j < i ==> known@[j]@ != p@,
        decreases known@.len() - i,
    {
        if same_text(known[i].as_str(), p) {
            assert(texts(known@)[i as int] == p@);
            return true;
        }
        i = i + 1;
    }
    proof {
        if texts(known@).contains(p@) {
            let j = choose|j: int| 0 <= j < texts(known@).len() && texts(known@)[j] == p@;
            assert(known@[j]@ == p@);
        }
    }
    false
}

fn parse_permissions(v: &Vec<JsonValue>, known: &Vec<String>) -> (r: Result<Vec<String>, LoadError>)
    ensures
        match (r, permissions_spec(v@, texts(known@))) {
            (Ok(ps), Ok(s)) => texts(ps@) == s,
            (Err(e), Err(s)) => e == s,
            _ => false,
        },
{
    let mut list: Vec<String> = Vec::new();
    let mut i: usize = 0;
    assert(v@.subrange(0, 0) =~= Seq::<JsonValue>::empty());
    assert(texts(list@) =~= Seq::<Seq<char>>::empty());
    while i < v.len()
        invariant
            i <= v@.len(),
            permissions_spec(v@.subrange(0, i as int), texts(known@)) == Ok::<
                Seq<Seq<char>>,
                LoadError,
            >(texts(list@)),
        decreases v@.len() - i,
    {
        let ghost pre = v@.subrange(0, i + 1);
        assert(pre.drop_last() =~= v@.subrange(0, i as int));
        match &v[i] {
            JsonValue::Str(p) => {
                if !is_known(p.as_str(), known) {
                    proof { lemma_permissions_err(v@, texts(known@), i as int + 1); }
                    return Err(LoadError::UnknownPermission);
                }
                let ghost before = list@;
                list.push(p.clone());
                assert(texts(list@) =~= texts(before).push(p@));
            },
            _ => {
                proof { lemma_permissions_err(v@, texts(known@), i as int + 1); }
                return Err(LoadError::Malformed);
            },
        }
        i = i + 1;
    }
    assert(v@.subrange(0, v@.len() as int) =~= v@);
    Ok(list)
}

proof fn lemma_permissions_err(v: Seq<JsonValue>, known: Seq<Seq<char>>, k: int)
    requires
        0 <= k <= v.len(),
        permissions_spec(v.subrange(0, k), known) is Err,
    ensures
        permissions_spec(v, known) == permissions_spec(v.subrange(0, k), known),
    decreases v.len() - k,
{
    if k < v.len() {
        let next = v.subrange(0, k + 1);
        assert(next.drop_last() =~= v.subrange(0, k));
        lemma_permissions_err(v, known, k + 1);
    } else {
        assert(v.subrange(0, k) =~= v);
    }
}


fn parse_whitelist(v: &Vec<JsonValue>) -> (r: Result<Vec<Pattern>, LoadError>)
    ensures
        match (r, whitelist_spec(v@)) {
            (Ok(ws), Ok(s)) => sources(ws@) == s,
            (Err(e), Err(s)) => e == s,
            _ => false,
        },
{
    let mut list: Vec<Pattern> = Vec::new();
    let mut i: usize = 0;
    assert(v@.subrange(0, 0) =~= Seq::<JsonValue>::empty());
    assert(sources(list@) =~= Seq::<Seq<char>>::empty());
    while i < v.len()
        invariant
            i <= v@.len(),
            whitelist_spec(v@.subrange(0, i as int)) == Ok::<Seq<Seq<char>>, LoadError>(
                sources(list@),
            ),
        decreases v@.len() - i,
    {
        let ghost pre = v@.subrange(0, i + 1);
        assert(pre.drop_last() =~= v@.subrange(0, i as int));
        match &v[i] {
            JsonValue::Str(w) => {
                match Pattern::compile(w.as_str()) {
                    Ok(p) => {
                        let ghost before = list@;
                        list.push(p);
                        assert(sources(list@) =~= sources(before).push(w@));
                    },
                    Err(_) => {
                        proof { lemma_whitelist_err(v@, i as int + 1); }
                        return Err(LoadError::InvalidRegex);
                    },
                }
            },
            _ => {
                proof { lemma_whitelist_err(v@, i as int + 1); }
                return Err(LoadError::Malformed);
            },
        }
        i = i + 1;
    }
    assert(v@.subrange(0, v@.len() as int) =~= v@);
    Ok(list)
}

proof fn lemma_whitelist_err(v: Seq<JsonValue>, k: int)
    requires
        0 <= k <= v.len(),
        whitelist_spec(v.subrange(0, k)) is Err,
    ensures
        whitelist_spec(v) == whitelist_spec(v.subrange(0, k)),
    decreases v.len() - k,
{
    if k < v.len() {
        let next = v.subrange(0, k + 1);
        assert(next.drop_last() =~= v.subrange(0, k));
        lemma_whitelist_err(v, k + 1);
    } else {
        assert(v.subrange(0, k) =~= v);
    }
}

/// Whether the regular expression `p` declares a group called `name`.
fn has_group(p: &Pattern, name: &str) -> (r: bool)
    ensures
        r == declares(p.source(), name@),
{
    let names = p.group_names();
    let ghost g = regex_group_names(p.source());
    let mut i: usize = 0;
    while i < names.len()
        invariant
            i <= names@.len(),
            names@.len() == g.len(),
            g == regex_group_names(p.source()),
            forall|k: int|
                0 <= k < names@.len() ==> (match #[trigger] names@[k] {
                    Some(s) => g[k] == Some(s@),
                    None => g[k] is None,
                }),
            forall|j: int| 0 <= j < i ==> g[j] != Some(name@),
        decreases names@.len() - i,
    {
        match &names[i] {
            Some(s) => {
                if same_text(s.as_str(), name) {
                    assert(g[i as int] == Some(name@));
                    return true;
                }
            },
            None => {},
        }
        i = i + 1;
    }
    false
}

fn parse_forward_check(fc: Option<&JsonValue>, regex: &Pattern) -> (r: Result<Option<String>, LoadError>)
    ensures
        match (r, forward_spec(
            match fc {
                Some(v) => Some(*v),
                None => None,
            },
            regex.source(),
        )) {
            (Ok(f), Ok(s)) => opt_text(f) == s,
            (Err(e), Err(s)) => e == s,
            _ => false,
        },
{
    match fc {
        None => Ok(None),
        Some(JsonValue::Str(s)) => {
            let has1 = has_group(regex, "fc1");
            let has2 = has_group(regex, "fc2");
            if (has1 && !contains_text(s.as_str(), "{fc1}")) || (has2 && !contains_text(
                s.as_str(),
                "{fc2}",
            )) {
                Err(LoadError::MissingPlaceholder)
            } else if has2 && !has1 {
                Err(LoadError::MissingFirstCapture)
            } else {
                Ok(Some(s.clone()))
            }
        },
        Some(_) => Err(LoadError::Malformed),
    }
}


/// The rule that one catalog entry describes.
fn parse_rule(entry: &JsonValue, known: &Vec<String>) -> (r: Result<Rule, LoadError>)
    ensures
        match (r, rule_spec(*entry, texts(known@))) {
            (Ok(rule), Ok(s)) => rule@ == s,
            (Err(e), Err(s)) => e == s,
            _ => false,
        },
{
    let o = match entry {
        JsonValue::Object(o) => o,
        _ => return Err(LoadError::Malformed),
    };
    if o.len() < 4 || o.len() > 8 {
        return Err(LoadError::Malformed);
    }
    let regex = match get_string(o, "regex") {
        Some(r) => match Pattern::compile(r.as_str()) {
            Ok(p) => p,
            Err(_) => return Err(LoadError::InvalidRegex),
        },
        None => return Err(LoadError::Malformed),
    };
    let max_sdk = match get_field(o, "max_sdk") {
        None => None,
        Some(JsonValue::Unsigned(n)) => Some(*n),
        Some(_) => return Err(LoadError::Malformed),
    };
    let permissions = match get_field(o, "permissions") {
        None => {
            let ps: Vec<String> = Vec::new();
            assert(texts(ps@) =~= Seq::<Seq<char>>::empty());
            ps
        },
        Some(JsonValue::Array(a)) => match parse_permissions(a, known) {
            Ok(ps) => ps,
            Err(e) => return Err(e),
        },
        Some(_) => return Err(LoadError::Malformed),
    };
    let forward_check = match parse_forward_check(get_field(o, "forward_check"), &regex) {
        Ok(f) => f,
        Err(e) => return Err(e),
    };
    let label = match get_string(o, "label") {
        Some(l) => l.clone(),
        None => return Err(LoadError::Malformed),
    };
    let description = match get_string(o, "description") {
        Some(d) => d.clone(),
        None => return Err(LoadError::Malformed),
    };
    let criticity = match get_field(o, "criticity") {
        Some(JsonValue::Str(c)) => match Criticity::parse(c.as_str()) {
            Some(k) => k,
            None => return Err(LoadError::UnknownCriticity),
        },
        _ => return Err(LoadError::Malformed),
    };
    let whitelist = match get_field(o, "whitelist") {
        None => {
            let ws: Vec<Pattern> = Vec::new();
            assert(sources(ws@) =~= Seq::<Seq<char>>::empty());
            ws
        },
        Some(JsonValue::Array(a)) => match parse_whitelist(a) {
            Ok(ws) => ws,
            Err(e) => return Err(e),
        },
        Some(_) => return Err(LoadError::Malformed),
    };
    let rule = Rule {
        regex,
        permissions,
        forward_check,
        max_sdk,
        whitelist,
        label,
        description,
        criticity,
    };
    proof {
        assert(texts(rule.permissions@) =~= rule@.permissions);
        assert(sources(rule.whitelist@) =~= rule@.whitelist);
    }
    Ok(rule)
}

/// Loads the rule catalog from the parsed document `doc`, with `known` the names of the
/// permissions that exist. All or nothing: the rules in document order, or the error of
/// the first entry refused.
pub fn load_rules(doc: &JsonValue, known: &Vec<String>) -> (r: Result<Vec<Rule>, LoadError>)
    ensures
        match (r, catalog_spec(*doc, texts(known@))) {
            (Ok(rules), Ok(s)) => views(rules@) == s,
            (Err(e), Err(s)) => e == s,
            _ => false,
        },
{
    let v = match doc {
        JsonValue::Array(v) => v,
        _ => return Err(LoadError::NotAnArray),
    };
    let mut rules: Vec<Rule> = Vec::new();
    let mut i: usize = 0;
    assert(v@.subrange(0, 0) =~= Seq::<JsonValue>::empty());
    assert(views(rules@) =~= Seq::<RuleView>::empty());
    while i < v.len()
        invariant
            i <= v@.len(),
            rules_spec(v@.subrange(0, i as int), texts(known@)) == Ok::<Seq<RuleView>, LoadError>(
                views(rules@),
            ),
            catalog_spec(*doc, texts(known@)) == rules_spec(v@, texts(known@)),
        decreases v@.len() - i,
    {
        let ghost pre = v@.subrange(0, i + 1);
        assert(pre.drop_last() =~= v@.subrange(0, i as int));
        match parse_rule(&v[i], known) {
            Ok(rule) => {
                let ghost before = rules@;
                let ghost rv = rule@;
                rules.push(rule);
                assert(views(rules@) =~= views(before).push(rv));
            },
            Err(e) => {
                assert(pre.last() == v@[i as int]);
                assert(rules_spec(pre, texts(known@)) == Err::<Seq<RuleView>, LoadError>(e));
                proof {
                    lemma_rules_err(v@, texts(known@), i as int + 1);
                }
                return Err(e);
            },
        }
        i = i + 1;
    }
    assert(v@.subrange(0, v@.len() as int) =~= v@);
    Ok(rules)
}

proof fn lemma_rules_err(v: Seq<JsonValue>, known: Seq<Seq<char>>, k: int)
    requires
        0 <= k <= v.len(),
        rules_spec(v.subrange(0, k), known) is Err,
    ensures
        rules_spec(v, known) == rules_spec(v.subrange(0, k), known),
    decreases v.len() - k,
{
    if k < v.len() {
        let next = v.subrange(0, k + 1);
        assert(next.drop_last() =~= v.subrange(0, k));
        lemma_rules_err(v, known, k + 1);
    } else {
        assert(v.subrange(0, k) =~= v);
    }
}

} // verus!
