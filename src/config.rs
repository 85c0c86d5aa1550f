//! The controller configuration: a list of `key = value` entries with the keys
//! `path`, `state` and `middleware`.
use vstd::prelude::*;
use crate::text::str_eq;

verus! {

/// One `key = value` entry; the value is kept verbatim as expression text.
#[derive(Clone, Debug, PartialEq, Eq)]
pub struct AttrEntry {
    pub key: String,
    pub value: String,
}

pub struct AttrEntryView {
    pub key: Seq<char>,
    pub value: Seq<char>,
}

impl View for AttrEntry {
    type V = AttrEntryView;

    open spec fn view(&self) -> AttrEntryView {
        AttrEntryView { key: self.key@, value: self.value@ }
    }
}

/// The configuration of a controller. `path` and `state` are absent when not
/// given, which stands for `"/"` and `()`.
#[derive(Clone, Debug, PartialEq, Eq)]
pub struct ControllerSpec {
    pub path: Option<String>,
    pub state: Option<String>,
    pub middlewares: Vec<String>,
}

pub struct ControllerSpecView {
    pub path: Option<Seq<char>>,
    pub state: Option<Seq<char>>,
    pub middlewares: Seq<Seq<char>>,
}

pub open spec fn opt_view(o: Option<String>) -> Option<Seq<char>> {
    match o {
        Some(s) => Some(s@),
        None => None,
    }
}

impl View for ControllerSpec {
    type V = ControllerSpecView;

    open spec fn view(&self) -> ControllerSpecView {
        ControllerSpecView {
            path: opt_view(self.path),
            state: opt_view(self.state),
            middlewares: self.middlewares@.map_values(|m: String| m@),
        }
    }
}

/// Why a configuration was refused.
#[derive(Clone, Copy, Debug, PartialEq, Eq, Structural)]
pub enum ConfigError {
    /// A key other than `path`, `state` or `middleware`.
    UnknownKey,
    /// A second `path` entry.
    DuplicatePath,
    /// A second `state` entry.
    DuplicateState,
    /// A member of the controller that is not a function carries `route`.
    RouteOnNonFunction,
}

pub open spec fn path_key() -> Seq<char> {
    seq!['p', 'a', 't', 'h']
}

pub open spec fn state_key() -> Seq<char> {
    seq!['s', 't', 'a', 't', 'e']
}

pub open spec fn middleware_key() -> Seq<char> {
    seq!['m', 'i', 'd', 'd', 'l', 'e', 'w', 'a', 'r', 'e']
}

/// The effect of one entry on the configuration read so far.
pub open spec fn apply_entry(c: ControllerSpecView, e: AttrEntryView) -> Result<ControllerSpecView, ConfigError> {
    if e.key == path_key() {
        if c.path is Some {
            Err(ConfigError::DuplicatePath)
        } else {
            Ok(ControllerSpecView { path: Some(e.value), ..c })
        }
    } else if e.key == state_key() {
        if c.state is Some {
            Err(ConfigError::DuplicateState)
        } else {
            Ok(ControllerSpecView { state: Some(e.value), ..c })
        }
    } else if e.key == middleware_key() {
        Ok(ControllerSpecView { middlewares: c.middlewares.push(e.value), ..c })
    } else {
        Err(ConfigError::UnknownKey)
    }
}

pub open spec fn empty_spec() -> ControllerSpecView {
    ControllerSpecView { path: None, state: None, middlewares: Seq::empty() }
}

/// Reading the entries in order; the first refused entry decides the error.
pub open spec fn parse_attrs_spec(es: Seq<AttrEntryView>) -> Result<ControllerSpecView, ConfigError>
    decreases es.len(),
{
    if es.len() == 0 {
        Ok(empty_spec())
    } else {
        match parse_attrs_spec(es.drop_last()) {
            Err(e) => Err(e),
            Ok(c) => apply_entry(c, es.last()),
        }
    }
}

/// Once an entry is refused, no later entry changes the outcome.
pub proof fn lemma_error_persists(es: Seq<AttrEntryView>, k: int, e: ConfigError)
    requires
        0 <= k <= es.len(),
        parse_attrs_spec(es.take(k)) == Err::<ControllerSpecView, ConfigError>(e),
    ensures
        parse_attrs_spec(es) == Err::<ControllerSpecView, ConfigError>(e),
    decreases es.len() - k,
{
    if k == es.len() {
        assert(es.take(k) =~= es);
    } else {
        assert(es.take(k + 1).drop_last() =~= es.take(k));
        lemma_error_persists(es, k + 1, e);
    }
}

/// Whether the singleton slot that `key` names is already filled.
pub open spec fn slot_filled(c: ControllerSpecView, key: Seq<char>) -> bool {
    if key == path_key() {
        c.path is Some
    } else {
        c.state is Some
    }
}

proof fn lemma_slot_stays_filled(es: Seq<AttrEntryView>, k: int, i: int, key: Seq<char>)
    requires
        key == path_key() || key == state_key(),
        0 <= i < k <= es.len(),
        es[i].key == key,
        parse_attrs_spec(es.take(k)) is Ok,
    ensures
        slot_filled(parse_attrs_spec(es.take(k))->Ok_0, key),
    decreases k,
{
    assert(es.take(k).drop_last() =~= es.take(k - 1));
    assert(es.take(k).last() == es[k - 1]);
    if k > i + 1 {
        lemma_slot_stays_filled(es, k - 1, i, key);
    }
}

proof fn lemma_duplicate_rejected(es: Seq<AttrEntryView>, i: int, j: int, key: Seq<char>)
    requires
        key == path_key() || key == state_key(),
        0 <= i < j < es.len(),
        es[i].key == key,
        es[j].key == key,
    ensures
        parse_attrs_spec(es) is Err,
{
    assert(es.take(j + 1).drop_last() =~= es.take(j));
    assert(es.take(j + 1).last() == es[j]);
    match parse_attrs_spec(es.take(j)) {
        Err(e) => {
            lemma_error_persists(es, j, e);
        },
        Ok(c) => {
            lemma_slot_stays_filled(es, j, i, key);
            let e = parse_attrs_spec(es.take(j + 1))->Err_0;
            lemma_error_persists(es, j + 1, e);
        },
    }
}

/// A configuration that gives `path` twice is refused, whatever else it holds.
pub proof fn lemma_duplicate_path_rejected(es: Seq<AttrEntryView>, i: int, j: int)
    requires
        0 <= i < j < es.len(),
        es[i].key == path_key(),
        es[j].key == path_key(),
    ensures
        parse_attrs_spec(es) is Err,
{
    lemma_duplicate_rejected(es, i, j, path_key());
}

/// A configuration that gives `state` twice is refused, whatever else it holds.
pub proof fn lemma_duplicate_state_rejected(es: Seq<AttrEntryView>, i: int, j: int)
    requires
        0 <= i < j < es.len(),
        es[i].key == state_key(),
        es[j].key == state_key(),
    ensures
        parse_attrs_spec(es) is Err,
{
    assert(state_key() != path_key()) by {
        assert(state_key().len() != path_key().len());
    }
    lemma_duplicate_rejected(es, i, j, state_key());
}

/// A configuration of `middleware` entries alone, however many, is accepted and
/// keeps every value in order.
pub proof fn lemma_repeated_middleware_accepted(es: Seq<AttrEntryView>)
    requires
        forall|i: int| 0 <= i < es.len() ==> (#[trigger] es[i]).key == middleware_key(),
    ensures
        parse_attrs_spec(es) == Ok::<ControllerSpecView, ConfigError>(
            ControllerSpecView { path: None, state: None, middlewares: es.map_values(|e: AttrEntryView| e.value) },
        ),
    decreases es.len(),
{
    assert(middleware_key() != path_key()) by {
        assert(middleware_key().len() != path_key().len());
    }
    assert(middleware_key() != state_key()) by {
        assert(middleware_key().len() != state_key().len());
    }
    if es.len() == 0 {
        assert(es.map_values(|e: AttrEntryView| e.value) =~= Seq::<Seq<char>>::empty());
    } else {
        lemma_repeated_middleware_accepted(es.drop_last());
        assert(es.drop_last().map_values(|e: AttrEntryView| e.value).push(es.last().value) =~= es.map_values(
            |e: AttrEntryView| e.value,
        ));
    }
}

pub open spec fn entries_view(es: Seq<AttrEntry>) -> Seq<AttrEntryView> {
    es.map_values(|e: AttrEntry| e@)
}

/// Reads the configuration entries into a `ControllerSpec`.
pub fn parse_attrs(entries: &Vec<AttrEntry>) -> (r: Result<ControllerSpec, ConfigError>)
    ensures
        match r {
            Ok(c) => parse_attrs_spec(entries_view(entries@)) == Ok::<ControllerSpecView, ConfigError>(c@),
            Err(e) => parse_attrs_spec(entries_view(entries@)) == Err::<ControllerSpecView, ConfigError>(e),
        },
{
    let ghost ev = entries_view(entries@);
    let mut path: Option<String> = None;
    let mut state: Option<String> = None;
    let mut middlewares: Vec<String> = Vec::new();
    proof {
        reveal_strlit("path");
        reveal_strlit("state");
        reveal_strlit("middleware");
        assert(ev.take(0) =~= Seq::<AttrEntryView>::empty());
        assert(middlewares@.map_values(|m: String| m@) =~= Seq::<Seq<char>>::empty());
    }
    let mut i: usize = 0;
    while i < entries.len()
        invariant
            ev == entries_view(entries@),
            i <= entries.len(),
            "path"@ == path_key(),
            "state"@ == state_key(),
            "middleware"@ == middleware_key(),
            parse_attrs_spec(ev.take(i as int)) == Ok::<ControllerSpecView, ConfigError>(
                ControllerSpec { path, state, middlewares }@,
            ),
        decreases entries.len() - i,
    {
        let e = &entries[i];
        proof {
            assert(ev.take(i + 1).drop_last() =~= ev.take(i as int));
            assert(ev.take(i + 1).last() == e@);
        }
        let key = e.key.as_str();
        if str_eq(key, "path") {
            if path.is_some() {
                proof {
                    lemma_error_persists(ev, i + 1, ConfigError::DuplicatePath);
                }
                return Err(ConfigError::DuplicatePath);
            }
            path = Some(e.value.clone());
        } else if str_eq(key, "state") {
            if state.is_some() {
                proof {
                    lemma_error_persists(ev, i + 1, ConfigError::DuplicateState);
                }
                return Err(ConfigError::DuplicateState);
            }
            state = Some(e.value.clone());
        } else if str_eq(key, "middleware") {
            let ghost before = middlewares@;
            middlewares.push(e.value.clone());
            assert(middlewares@.map_values(|m: String| m@) =~= before.map_values(|m: String| m@).push(e.value@));
        } else {
            proof {
                    lemma_error_persists(ev, i + 1, ConfigError::UnknownKey);
                }
                return Err(ConfigError::UnknownKey);
        }
        i = i + 1;
    }
    proof {
        assert(ev.take(entries.len() as int) =~= ev);
    }
    Ok(ControllerSpec { path, state, middlewares })
}

} // verus!
