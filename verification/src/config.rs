//! Configuration: the rules to run, each with a level and its parameters.

use crate::text::same_text;
use vstd::prelude::*;

verus! {

/// Where and how verbosely to log.
#[derive(Debug, PartialEq)]
pub struct LogsConfig {
    pub level: String,
    pub file: String,
}

/// How imports are treated.
#[derive(Debug, PartialEq)]
pub struct ImportsConfig {
    pub organize: OrganizeConfig,
}

/// Whether imports are organised.
#[derive(Debug, PartialEq)]
pub struct OrganizeConfig {
    pub enabled: bool,
}

/// Structured, JSON-like data: the parameters of a rule.
#[derive(Debug, PartialEq)]
pub enum ParamValue {
    Null,
    Bool(bool),
    /// A number that is a non-negative integer below 2^64.
    Unsigned(u64),
    /// Any other number.
    Number,
    Text(String),
    List(Vec<ParamValue>),
    /// The members of an object, in order.
    Object(Vec<(String, ParamValue)>),
}

/// The mathematical model of a [`ParamValue`].
pub enum ParamView {
    Null,
    Bool(bool),
    Unsigned(u64),
    Number,
    Text(Seq<char>),
    List(Seq<ParamView>),
    Object(Seq<(Seq<char>, ParamView)>),
}

impl View for ParamValue {
    type V = ParamView;

    open spec fn view(&self) -> ParamView {
        self.model()
    }
}

/// The models of a list of values.
pub open spec fn param_views(items: Seq<ParamValue>) -> Seq<ParamView> {
    items.map_values(|v: ParamValue| v@)
}

/// The models of the members of an object.
pub open spec fn member_views(members: Seq<(String, ParamValue)>) -> Seq<(Seq<char>, ParamView)> {
    members.map_values(|m: (String, ParamValue)| (m.0@, m.1@))
}

impl ParamValue {
    /// The model of the value.
    pub open spec fn model(&self) -> ParamView
        decreases self,
    {
        match self {
            ParamValue::Null => ParamView::Null,
            ParamValue::Bool(b) => ParamView::Bool(*b),
            ParamValue::Unsigned(n) => ParamView::Unsigned(*n),
            ParamValue::Number => ParamView::Number,
            ParamValue::Text(s) => ParamView::Text(s@),
            ParamValue::List(items) => ParamView::List(
                Seq::new(items@.len(), |i: int| Self::model_at(items, i)),
            ),
            ParamValue::Object(members) => ParamView::Object(
                Seq::new(members@.len(), |i: int| Self::member_at(members, i)),
            ),
        }
    }

    /// The model of the `i`-th value of `items`.
    pub open spec fn model_at(items: &Vec<ParamValue>, i: int) -> ParamView
        decreases items, 0nat,
    {
        if 0 <= i < items@.len() {
            items@[i].model()
        } else {
            ParamView::Null
        }
    }

    /// The model of the `i`-th member of `members`.
    pub open spec fn member_at(members: &Vec<(String, ParamValue)>, i: int) -> (
        Seq<char>,
        ParamView,
    )
        decreases members, 0nat,
    {
        if 0 <= i < members@.len() {
            (members@[i].0@, members@[i].1.model())
        } else {
            (Seq::empty(), ParamView::Null)
        }
    }

    /// A list's model holds the models of its items, an object's those of its members.
    pub proof fn lemma_contents(&self)
        ensures
            self matches ParamValue::List(items) ==> self@ == ParamView::List(param_views(items@)),
            self matches ParamValue::Object(members) ==> self@ == ParamView::Object(
                member_views(members@),
            ),
    {
        match self {
            ParamValue::List(items) => {
                assert forall|i: int| 0 <= i < items@.len() implies self@->List_0[i] == param_views(
                    items@,
                )[i] by {
                    assert(self@->List_0[i] == Self::model_at(items, i));
                }
                assert(self@->List_0 =~= param_views(items@));
            },
            ParamValue::Object(members) => {
                assert forall|i: int| 0 <= i < members@.len() implies self@->Object_0[i]
                    == member_views(members@)[i] by {
                    assert(self@->Object_0[i] == Self::member_at(members, i));
                }
                assert(self@->Object_0 =~= member_views(members@));
            },
            _ => {},
        }
    }

    /// The member of an object that is named `key`, if `self` is an object
    /// that has one; the first, if it has several.
    pub fn get(&self, key: &str) -> (r: Option<&ParamValue>)
        ensures
            r is Some <==> self@.member(key@) is Some,
            r is Some ==> r->0@ == self@.member(key@)->0,
    {
        match self {
            ParamValue::Object(members) => {
                proof {
                    self.lemma_contents();
                }
                let mut i: usize = 0;
                while i < members.len()
                    invariant
                        i <= members@.len(),
                        self@ == ParamView::Object(member_views(members@)),
                        find(member_views(members@), key@, 0) == find(
                            member_views(members@),
                            key@,
                            i as int,
                        ),
                    decreases members@.len() - i,
                {
                    assert(member_views(members@)[i as int] == (
                        members@[i as int].0@,
                        members@[i as int].1@,
                    ));
                    if same_text(members[i].0.as_str(), key) {
                        return Some(&members[i].1);
                    }
                    i = i + 1;
                }
                None
            },
            _ => None,
        }
    }

    /// The number, if `self` is a non-negative integer below 2^64.
    pub fn as_u64(&self) -> (r: Option<u64>)
        ensures
            r == self@.unsigned(),
    {
        match self {
            ParamValue::Unsigned(n) => Some(*n),
            _ => None,
        }
    }

    /// The truth value, if `self` is one.
    pub fn as_bool(&self) -> (r: Option<bool>)
        ensures
            r == self@.truth(),
    {
        match self {
            ParamValue::Bool(b) => Some(*b),
            _ => None,
        }
    }

    /// The text, if `self` is a text.
    pub fn as_str(&self) -> (r: Option<&str>)
        ensures
            r is Some <==> self@ is Text,
            r is Some ==> r->0@ == self@->Text_0,
    {
        match self {
            ParamValue::Text(s) => Some(s.as_str()),
            _ => None,
        }
    }

    /// The items, if `self` is a list.
    pub fn as_array(&self) -> (r: Option<&Vec<ParamValue>>)
        ensures
            r is Some <==> self@ is List,
            r is Some ==> param_views(r->0@) == self@->List_0,
    {
        match self {
            ParamValue::List(items) => {
                proof {
                    self.lemma_contents();
                }
                Some(items)
            },
            _ => None,
        }
    }
}

/// The value of the first member at or after `from` that is named `key`.
pub open spec fn find(members: Seq<(Seq<char>, ParamView)>, key: Seq<char>, from: int) -> Option<
    ParamView,
>
    decreases members.len() - from,
{
    if from < 0 || from >= members.len() {
        None
    } else if members[from].0 == key {
        Some(members[from].1)
    } else {
        find(members, key, from + 1)
    }
}

impl ParamView {
    /// The member named `key` of an object; the first, if it has several.
    pub open spec fn member(self, key: Seq<char>) -> Option<ParamView> {
        match self {
            ParamView::Object(members) => find(members, key, 0),
            _ => None,
        }
    }

    /// The number, if the value is a non-negative integer below 2^64.
    pub open spec fn unsigned(self) -> Option<u64> {
        match self {
            ParamView::Unsigned(n) => Some(n),
            _ => None,
        }
    }

    /// The truth value, if the value is one.
    pub open spec fn truth(self) -> Option<bool> {
        match self {
            ParamView::Bool(b) => Some(b),
            _ => None,
        }
    }
}

/// How a rule is configured: its level, `"off"` or a severity, and its
/// parameters, if it has any.
#[derive(Debug, PartialEq)]
pub struct RuleParams(pub String, pub Option<ParamValue>);

/// The mathematical model of [`RuleParams`].
pub struct RuleParamsView {
    pub level: Seq<char>,
    pub params: Option<ParamView>,
}

impl View for RuleParams {
    type V = RuleParamsView;

    open spec fn view(&self) -> RuleParamsView {
        RuleParamsView {
            level: self.0@,
            params: match self.1 {
                Some(v) => Some(v@),
                None => None,
            },
        }
    }
}

/// The models of the entries of a rule map.
pub open spec fn entry_views(entries: Seq<(String, RuleParams)>) -> Seq<
    (Seq<char>, RuleParamsView),
> {
    entries.map_values(|e: (String, RuleParams)| (e.0@, e.1@))
}

/// Whether no name occurs twice among `entries`.
pub open spec fn distinct_names(entries: Seq<(Seq<char>, RuleParamsView)>) -> bool {
    forall|i: int, j: int|
        0 <= i < j < entries.len() ==> (#[trigger] entries[i]).0 != (#[trigger] entries[j]).0
}

/// The configured rules by name, in the order in which they were first
/// inserted. No name occurs twice.
#[derive(Debug, PartialEq)]
pub struct RuleMap {
    entries: Vec<(String, RuleParams)>,
}

impl View for RuleMap {
    type V = Seq<(Seq<char>, RuleParamsView)>;

    closed spec fn view(&self) -> Seq<(Seq<char>, RuleParamsView)> {
        entry_views(self.entries@)
    }
}

impl RuleMap {
    #[verifier::type_invariant]
    closed spec fn distinct(self) -> bool {
        distinct_names(entry_views(self.entries@))
    }

    /// The invariant of the map: no name occurs twice.
    pub open spec fn well_formed(&self) -> bool {
        distinct_names(self@)
    }

    /// Every map is well formed.
    pub fn assured(&self)
        ensures
            self.well_formed(),
    {
        proof {
            use_type_invariant(self);
        }
    }

    /// The position of `name` among the entries, if it is there.
    pub open spec fn position(entries: Seq<(Seq<char>, RuleParamsView)>, name: Seq<char>) -> Option<
        int,
    > {
        if exists|i: int| 0 <= i < entries.len() && #[trigger] entries[i].0 == name {
            Some(choose|i: int| 0 <= i < entries.len() && #[trigger] entries[i].0 == name)
        } else {
            None
        }
    }

    /// The map without entries.
    pub fn new() -> (r: RuleMap)
        ensures
            r@ == Seq::<(Seq<char>, RuleParamsView)>::empty(),
            r.well_formed(),
    {
        let r = RuleMap { entries: Vec::new() };
        assert(r@ =~= Seq::empty());
        r
    }

    /// The number of rules.
    pub fn len(&self) -> (r: usize)
        ensures
            r == self@.len(),
    {
        self.entries.len()
    }

    fn index_of(&self, name: &str) -> (r: Option<usize>)
        ensures
            r is Some ==> r->0 < self@.len() && self@[r->0 as int].0 == name@,
            r is None ==> forall|i: int| 0 <= i < self@.len() ==> (#[trigger] self@[i]).0 != name@,
    {
        let mut i: usize = 0;
        while i < self.entries.len()
            invariant
                i <= self.entries@.len(),
                forall|j: int| 0 <= j < i ==> (#[trigger] self@[j]).0 != name@,
            decreases self.entries@.len() - i,
        {
            if same_text(self.entries[i].0.as_str(), name) {
                return Some(i);
            }
            i = i + 1;
        }
        None
    }

    /// How the rule `name` is configured, if it is.
    pub fn get(&self, name: &str) -> (r: Option<&RuleParams>)
        ensures
            r is Some <==> exists|i: int| 0 <= i < self@.len() && (#[trigger] self@[i]).0 == name@,
            r is Some ==> exists|i: int|
                0 <= i < self@.len() && (#[trigger] self@[i]).0 == name@ && self@[i].1 == r->0@,
    {
        match self.index_of(name) {
            Some(i) => {
                assert(self@[i as int].1 == self.entries@[i as int].1@);
                Some(&self.entries[i].1)
            },
            None => None,
        }
    }

    /// Configures the rule `name`. A rule that is already configured keeps its
    /// place and gets the new configuration; a new rule comes last.
    pub fn insert(&mut self, name: String, params: RuleParams)
        ensures
            final(self).well_formed(),
            match Self::position(old(self)@, name@) {
                Some(i) => final(self)@ == old(self)@.update(i, (name@, params@)),
                None => final(self)@ == old(self)@.push((name@, params@)),
            },
    {
        let ghost before = self@;
        proof {
            use_type_invariant(&*self);
        }
        match self.index_of(name.as_str()) {
            Some(i) => {
                let mut entries: Vec<(String, RuleParams)> = Vec::new();
                proof {
                    assert(entry_views(entries@) =~= Seq::empty());
                }
                core::mem::swap(&mut self.entries, &mut entries);
                entries.set(i, (name, params));
                proof {
                    let p = Self::position(before, name@)->0;
                    assert(before[p].0 == before[i as int].0);
                    assert(p == i);
                    assert(entry_views(entries@) =~= before.update(i as int, (name@, params@)));
                }
                core::mem::swap(&mut self.entries, &mut entries);
            },
            None => {
                let mut entries: Vec<(String, RuleParams)> = Vec::new();
                proof {
                    assert(entry_views(entries@) =~= Seq::empty());
                }
                core::mem::swap(&mut self.entries, &mut entries);
                entries.push((name, params));
                proof {
                    assert(entry_views(entries@) =~= before.push((name@, params@)));
                }
                core::mem::swap(&mut self.entries, &mut entries);
            },
        }
    }

    /// The entry at position `i`.
    pub fn entry(&self, i: usize) -> (r: (&String, &RuleParams))
        requires
            i < self@.len(),
        ensures
            (r.0@, r.1@) == self@[i as int],
    {
        (&self.entries[i].0, &self.entries[i].1)
    }
}

/// The configuration of an invocation. The core reads only `rules`.
#[derive(Debug, PartialEq)]
pub struct Config {
    pub logs: LogsConfig,
    pub imports: ImportsConfig,
    pub rules: RuleMap,
}

/// Why a configuration is refused.
#[derive(Debug, PartialEq)]
pub enum ConfigError {
    /// A rule of this name does not exist.
    UnknownRule(String),
    /// The parameters of the rule of this name are not what the rule reads.
    MalformedParams(String),
}

/// The mathematical model of a [`ConfigError`].
pub enum ConfigFault {
    UnknownRule(Seq<char>),
    MalformedParams(Seq<char>),
}

impl View for ConfigError {
    type V = ConfigFault;

    open spec fn view(&self) -> ConfigFault {
        match self {
            ConfigError::UnknownRule(name) => ConfigFault::UnknownRule(name@),
            ConfigError::MalformedParams(name) => ConfigFault::MalformedParams(name@),
        }
    }
}

impl ConfigError {
    /// The message of the error.
    pub fn message(&self) -> (r: String)
        ensures
            r@ == match self@ {
                ConfigFault::UnknownRule(name) => "Invalid rule name: "@ + name,
                ConfigFault::MalformedParams(name) => "Invalid parameters for rule: "@ + name,
            },
    {
        match self {
            ConfigError::UnknownRule(name) => {
                let mut r = String::from_str("Invalid rule name: ");
                r.append(name.as_str());
                r
            },
            ConfigError::MalformedParams(name) => {
                let mut r = String::from_str("Invalid parameters for rule: ");
                r.append(name.as_str());
                r
            },
        }
    }
}

/// A copy of a list of values.
pub fn copy_values(items: &Vec<ParamValue>) -> (r: Vec<ParamValue>)
    ensures
        param_views(r@) == param_views(items@),
    decreases items,
{
    let mut copies: Vec<ParamValue> = Vec::new();
    let mut i: usize = 0;
    while i < items.len()
        invariant
            i <= items@.len(),
            copies@.len() == i,
            forall|j: int| 0 <= j < i ==> copies@[j]@ == items@[j]@,
        decreases items@.len() - i,
    {
        copies.push(items[i].duplicate());
        i = i + 1;
    }
    assert(param_views(copies@) =~= param_views(items@));
    copies
}

/// A copy of the members of an object.
pub fn copy_members(members: &Vec<(String, ParamValue)>) -> (r: Vec<(String, ParamValue)>)
    ensures
        member_views(r@) == member_views(members@),
    decreases members,
{
    let mut copies: Vec<(String, ParamValue)> = Vec::new();
    let mut i: usize = 0;
    while i < members.len()
        invariant
            i <= members@.len(),
            copies@.len() == i,
            forall|j: int|
                0 <= j < i ==> copies@[j].0@ == members@[j].0@ && copies@[j].1@ == members@[j].1@,
        decreases members@.len() - i,
    {
        copies.push((members[i].0.clone(), members[i].1.duplicate()));
        i = i + 1;
    }
    assert(member_views(copies@) =~= member_views(members@));
    copies
}

impl ParamValue {
    /// A copy of the value.
    pub fn duplicate(&self) -> (r: ParamValue)
        ensures
            r@ == self@,
        decreases self,
    {
        match self {
            ParamValue::Null => ParamValue::Null,
            ParamValue::Bool(b) => ParamValue::Bool(*b),
            ParamValue::Unsigned(n) => ParamValue::Unsigned(*n),
            ParamValue::Number => ParamValue::Number,
            ParamValue::Text(s) => ParamValue::Text(s.clone()),
            ParamValue::List(items) => {
                let r = ParamValue::List(copy_values(items));
                proof {
                    r.lemma_contents();
                    self.lemma_contents();
                }
                r
            },
            ParamValue::Object(members) => {
                let r = ParamValue::Object(copy_members(members));
                proof {
                    r.lemma_contents();
                    self.lemma_contents();
                }
                r
            },
        }
    }
}

impl Clone for ParamValue {
    fn clone(&self) -> (r: Self)
        ensures
            r@ == self@,
    {
        self.duplicate()
    }
}

impl Clone for RuleParams {
    fn clone(&self) -> (r: Self)
        ensures
            r@ == self@,
    {
        RuleParams(
            self.0.clone(),
            match &self.1 {
                Some(value) => Some(value.duplicate()),
                None => None,
            },
        )
    }
}

} // verus!
