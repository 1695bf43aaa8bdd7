//! The state of the server between tool calls: at most one loaded puppet, its
//! parameter names, the parameter values the user set, and the render size.
//!
//! The puppet's model and its renderer are held as opaque `resources` of a type
//! chosen by the caller; loading a puppet replaces all of it at once.
use crate::params::{ParamValue, RenderParams, SetParamParams};
use vstd::prelude::*;

verus! {

/// What a tool call is refused with.
#[derive(Debug)]
pub enum ToolError {
    /// A tool other than `load_puppet` was called before any puppet was loaded.
    NoPuppetLoaded,
    /// `set_param` named a parameter that the loaded puppet does not have.
    UnknownParameter(String),
    /// The rendered frame could not be encoded as PNG; holds the encoder's description.
    RenderFailed(String),
}

/// The text that a refused tool call answers with.
pub open spec fn error_text(e: ToolError) -> Seq<char> {
    match e {
        ToolError::NoPuppetLoaded => "No puppet loaded. Call load_puppet first."@,
        ToolError::UnknownParameter(name) => "No parameter named '"@ + name@ + "'"@,
        ToolError::RenderFailed(detail) => "Render failed: Failed to encode PNG: "@ + detail@,
    }
}

impl ToolError {
    /// The text that a refused tool call answers with.
    pub fn message(&self) -> (text: String)
        ensures
            text@ == error_text(*self),
            *self matches ToolError::NoPuppetLoaded ==> text@ == "No puppet loaded. Call load_puppet first."@,
            *self matches ToolError::UnknownParameter(n) ==> text@ == "No parameter named '"@ + n@
                + "'"@,
            *self matches ToolError::RenderFailed(d) ==> text@ == "Render failed: Failed to encode PNG: "@
                + d@,
    {
        match self {
            ToolError::NoPuppetLoaded => String::from_str("No puppet loaded. Call load_puppet first."),
            ToolError::UnknownParameter(name) => {
                let mut text = String::from_str("No parameter named '");
                text.append(name.as_str());
                text.append("'");
                text
            },
            ToolError::RenderFailed(detail) => {
                let mut text = String::from_str("Render failed: Failed to encode PNG: ");
                text.append(detail.as_str());
                text
            },
        }
    }
}

/// The loaded puppet as the library sees it.
pub struct PuppetView {
    /// The puppet's parameter names, each once.
    pub param_names: Seq<Seq<char>>,
    /// The values the user set, by parameter name.
    pub overrides: Map<Seq<char>, ParamValue>,
    /// Current render width in pixels.
    pub width: u32,
    /// Current render height in pixels.
    pub height: u32,
}

/// Every parameter value the user set belongs to a parameter of the puppet.
pub open spec fn overrides_known(v: PuppetView) -> bool {
    forall|k: Seq<char>| #[trigger] v.overrides.dom().contains(k) ==> v.param_names.contains(k)
}

/// The puppet with the value of parameter `name` set to `value`.
pub open spec fn with_override(v: PuppetView, name: Seq<char>, value: ParamValue) -> PuppetView {
    PuppetView { overrides: v.overrides.insert(name, value), ..v }
}

/// The puppet rendered at `width` x `height` from now on.
pub open spec fn with_size(v: PuppetView, width: u32, height: u32) -> PuppetView {
    PuppetView { width, height, ..v }
}

/// The puppet after a `render` request with `params`.
pub open spec fn after_render_request(v: PuppetView, params: RenderParams) -> PuppetView {
    match params.spec_size_after(v.width, v.height) {
        Some((w, h)) => with_size(v, w, h),
        None => v,
    }
}

/// The texts of a list of strings.
pub open spec fn names_of(v: Seq<String>) -> Seq<Seq<char>> {
    Seq::new(v.len(), |i: int| v[i]@)
}

/// The names of `s`, each once, in the order of their first occurrence.
pub open spec fn distinct_names(s: Seq<Seq<char>>) -> Seq<Seq<char>>
    decreases s.len(),
{
    if s.len() == 0 {
        Seq::empty()
    } else {
        let d = distinct_names(s.drop_last());
        if d.contains(s.last()) {
            d
        } else {
            d.push(s.last())
        }
    }
}

/// `distinct_names(s)` holds no name twice, and holds exactly the names of `s`.
pub proof fn lemma_distinct_names(s: Seq<Seq<char>>)
    ensures
        distinct_names(s).no_duplicates(),
        forall|k: Seq<char>| #[trigger] distinct_names(s).contains(k) <==> s.contains(k),
    decreases s.len(),
{
    if s.len() > 0 {
        let p = s.drop_last();
        lemma_distinct_names(p);
        assert forall|k: Seq<char>| #[trigger] distinct_names(s).contains(k) <==> s.contains(k) by {
            if s.contains(k) && k != s.last() {
                let i = choose|i: int| 0 <= i < s.len() && s[i] == k;
                assert(p[i] == k);
            }
            if p.contains(k) {
                let i = choose|i: int| 0 <= i < p.len() && p[i] == k;
                assert(s[i] == k);
            }
            if !distinct_names(p).contains(s.last()) {
                assert(distinct_names(s) == distinct_names(p).push(s.last()));
                if distinct_names(s).contains(k) && k != s.last() {
                    let i = choose|i: int|
                        0 <= i < distinct_names(s).len() && distinct_names(s)[i] == k;
                    assert(distinct_names(p)[i] == k);
                }
                if distinct_names(p).contains(k) {
                    let i = choose|i: int|
                        0 <= i < distinct_names(p).len() && distinct_names(p)[i] == k;
                    assert(distinct_names(s)[i] == k);
                }
                assert(distinct_names(s)[distinct_names(p).len() as int] == s.last());
            }
            assert(s[s.len() - 1] == s.last());
        }
    }
}

/// A puppet loaded into the server.
pub struct PuppetState<R> {
    /// The puppet's model and renderer, held for the caller.
    pub resources: R,
    param_names: Vec<String>,
    override_values: Vec<Option<ParamValue>>,
    width: u32,
    height: u32,
}

impl<R> View for PuppetState<R> {
    type V = PuppetView;

    closed spec fn view(&self) -> PuppetView {
        let names = names_of(self.param_names@);
        PuppetView {
            param_names: names,
            overrides: Map::new(
                |k: Seq<char>|
                    exists|i: int|
                        0 <= i < names.len() && #[trigger] names[i] == k
                            && self.override_values@[i] is Some,
                |k: Seq<char>| self.override_values@[names.index_of(k)]->0,
            ),
            width: self.width,
            height: self.height,
        }
    }
}

/// Where a name stands in a list of names that holds each once.
proof fn lemma_index_of_unique(names: Seq<Seq<char>>, i: int)
    requires
        names.no_duplicates(),
        0 <= i < names.len(),
    ensures
        names.index_of(names[i]) == i,
{
    assert(names[i] == names[i]);
    let j = names.index_of(names[i]);
    assert(0 <= j < names.len() && names[j] == names[i]);
}

impl<R> PuppetState<R> {
    /// The caller's resources that this puppet holds.
    pub closed spec fn held_resources(&self) -> R {
        self.resources
    }

    /// The puppet is consistent; every puppet the library hands out is.
    pub closed spec fn wf(&self) -> bool {
        &&& names_of(self.param_names@).no_duplicates()
        &&& self.override_values@.len() == self.param_names@.len()
    }

    proof fn lemma_overrides_known(&self)
        requires
            self.wf(),
        ensures
            overrides_known(self@),
    {
        let names = names_of(self.param_names@);
        assert forall|k: Seq<char>| #[trigger] self@.overrides.dom().contains(k) implies self@.param_names.contains(k) by {
            let i = choose|i: int|
                0 <= i < names.len() && #[trigger] names[i] == k && self.override_values@[i] is Some;
            assert(names[i] == k);
        }
    }

    /// The values the user set, one entry per parameter, each parameter once.
    pub fn override_entries(&self) -> (entries: Vec<(String, ParamValue)>)
        requires
            self.wf(),
        ensures
            names_of(entries@.map_values(|e: (String, ParamValue)| e.0)).no_duplicates(),
            forall|j: int|
                0 <= j < entries@.len() ==> self@.overrides.dom().contains(#[trigger] entries@[j].0@)
                    && self@.overrides[entries@[j].0@] == entries@[j].1,
            forall|k: Seq<char>|
                #[trigger] self@.overrides.dom().contains(k) ==> exists|j: int|
                    0 <= j < entries@.len() && #[trigger] entries@[j].0@ == k,
    {
        let ghost names = names_of(self.param_names@);
        let ghost vals = self.override_values@;
        let mut entries: Vec<(String, ParamValue)> = Vec::new();
        let mut i: usize = 0;
        while i < self.param_names.len()
            invariant
                self.wf(),
                names == names_of(self.param_names@),
                vals == self.override_values@,
                i <= self.param_names@.len(),
                forall|j: int|
                    0 <= j < entries@.len() ==> #[trigger] sourced(names, vals, entries@[j], i as int),
                forall|t: int|
                    0 <= t < i && vals[t] is Some ==> #[trigger] names_hold(entries@, names[t]),
                forall|a: int, b: int|
                    0 <= a < b < entries@.len() ==> entries@[a].0@ != entries@[b].0@,
            decreases self.param_names@.len() - i,
        {
            let ghost before = entries@;
            match self.override_values[i] {
                Some(v) => {
                    let name = self.param_names[i].clone();
                    proof {
                        assert(names[i as int] == name@);
                        lemma_index_of_unique(names, i as int);
                        assert forall|j: int| 0 <= j < before.len() implies before[j].0@ != name@ by {
                            assert(sourced(names, vals, before[j], i as int));
                            let t = choose|t: int|
                                0 <= t < i && names[t] == before[j].0@ && vals[t] == Some(before[j].1);
                            assert(names[t] != names[i as int]);
                        }
                    }
                    entries.push((name, v));
                    proof {
                        assert forall|j: int| 0 <= j < entries@.len() implies #[trigger] sourced(
                            names,
                            vals,
                            entries@[j],
                            i + 1,
                        ) by {
                            if j == before.len() {
                                assert(entries@[j] == (name, v));
                                assert(names[i as int] == entries@[j].0@ && vals[i as int] == Some(entries@[j].1));
                            } else {
                                assert(entries@[j] == before[j]);
                                assert(sourced(names, vals, before[j], i as int));
                                let t = choose|t: int|
                                    0 <= t < i && names[t] == before[j].0@ && vals[t] == Some(before[j].1);
                                assert(names[t] == entries@[j].0@ && vals[t] == Some(entries@[j].1));
                            }
                        }
                        assert forall|t: int| 0 <= t < i + 1 && vals[t] is Some implies #[trigger] names_hold(
                            entries@,
                            names[t],
                        ) by {
                            if t == i {
                                assert(entries@[before.len() as int].0@ == names[t]);
                            } else {
                                assert(names_hold(before, names[t]));
                                let j = choose|j: int|
                                    0 <= j < before.len() && #[trigger] before[j].0@ == names[t];
                                assert(entries@[j] == before[j]);
                            }
                        }
                    }
                },
                None => {
                    proof {
                        assert forall|t: int| 0 <= t < i + 1 && vals[t] is Some implies #[trigger] names_hold(
                            entries@,
                            names[t],
                        ) by {}
                        assert forall|j: int| 0 <= j < entries@.len() implies #[trigger] sourced(
                            names,
                            vals,
                            entries@[j],
                            i + 1,
                        ) by {
                            assert(sourced(names, vals, entries@[j], i as int));
                            let t = choose|t: int|
                                0 <= t < i && names[t] == entries@[j].0@ && vals[t] == Some(entries@[j].1);
                            assert(names[t] == entries@[j].0@ && vals[t] == Some(entries@[j].1));
                        }
                    }
                },
            }
            i = i + 1;
        }
        proof {
            let keys = names_of(entries@.map_values(|e: (String, ParamValue)| e.0));
            assert forall|a: int, b: int| 0 <= a < keys.len() && 0 <= b < keys.len() && a != b implies keys[a]
                != keys[b] by {
                assert(keys[a] == entries@[a].0@);
                assert(keys[b] == entries@[b].0@);
            }
            assert forall|j: int| 0 <= j < entries@.len() implies self@.overrides.dom().contains(
                #[trigger] entries@[j].0@,
            ) && self@.overrides[entries@[j].0@] == entries@[j].1 by {
                assert(sourced(names, vals, entries@[j], i as int));
                let t = choose|t: int|
                    0 <= t < i && names[t] == entries@[j].0@ && vals[t] == Some(entries@[j].1);
                lemma_index_of_unique(names, t);
                assert(names[t] == entries@[j].0@);
            }
            assert forall|k: Seq<char>| #[trigger] self@.overrides.dom().contains(k) implies exists|j: int|
                0 <= j < entries@.len() && #[trigger] entries@[j].0@ == k by {
                let t = choose|t: int|
                    0 <= t < names.len() && #[trigger] names[t] == k && vals[t] is Some;
                assert(names_hold(entries@, names[t]));
            }
        }
        entries
    }
}

/// An entry of the override list comes from one of the first `bound` positions of
/// the puppet's parameter list: its name, with its value set.
spec fn sourced(names: Seq<Seq<char>>, vals: Seq<Option<ParamValue>>, e: (String, ParamValue), bound: int) -> bool {
    exists|t: int| 0 <= t < bound && names[t] == e.0@ && vals[t] == Some(e.1)
}

spec fn names_hold(entries: Seq<(String, ParamValue)>, name: Seq<char>) -> bool {
    exists|j: int| 0 <= j < entries.len() && #[trigger] entries[j].0@ == name
}

/// What `load_puppet` reports about the puppet it loaded.
pub struct LoadSummary {
    /// The puppet's name, or `<unnamed>`.
    pub name: String,
    /// How many parameters the puppet has.
    pub param_count: usize,
    /// How many textures the puppet has.
    pub texture_count: usize,
    /// Render width in pixels.
    pub render_width: u32,
    /// Render height in pixels.
    pub render_height: u32,
}

/// The name that `load_puppet` reports for a puppet.
pub open spec fn reported_name(name: Option<String>) -> Seq<char> {
    match name {
        Some(n) => n@,
        None => "<unnamed>"@,
    }
}

/// What `render` is to draw.
#[derive(Debug, PartialEq, Eq, Structural)]
pub struct RenderPlan {
    /// Render width in pixels.
    pub width: u32,
    /// Render height in pixels.
    pub height: u32,
    /// Whether the render target must first be resized to `width` x `height`
    /// (whenever the request gives a size).
    pub resize: bool,
}

/// The server's state: no puppet, or one loaded puppet.
pub struct InoxSession<R> {
    loaded: Option<PuppetState<R>>,
}

impl<R> View for InoxSession<R> {
    type V = Option<PuppetView>;

    closed spec fn view(&self) -> Option<PuppetView> {
        match self.loaded {
            Some(p) => Some(p@),
            None => None,
        }
    }
}

/// Where `name` stands in `names`, if it is there.
fn position_of(names: &Vec<String>, name: &String) -> (pos: Option<usize>)
    ensures
        pos matches Some(i) ==> i < names@.len() && names_of(names@)[i as int] == name@,
        pos is None ==> !names_of(names@).contains(name@),
{
    let mut i: usize = 0;
    while i < names.len()
        invariant
            i <= names@.len(),
            forall|j: int| 0 <= j < i ==> names_of(names@)[j] != name@,
        decreases names@.len() - i,
    {
        if names[i] == *name {
            return Some(i);
        }
        i = i + 1;
    }
    None
}

impl<R> InoxSession<R> {
    /// The session is consistent; every session the library hands out is.
    pub closed spec fn wf(&self) -> bool {
        self.loaded matches Some(p) ==> p.wf()
    }

    /// The caller's resources of the loaded puppet, if any.
    pub closed spec fn loaded_resources(&self) -> Option<R> {
        match self.loaded {
            Some(p) => Some(p.resources),
            None => None,
        }
    }

    /// A server with no puppet loaded.
    pub fn new() -> (s: Self)
        ensures
            s.wf(),
            s@ is None,
    {
        InoxSession { loaded: None }
    }

    /// Whether a puppet is loaded.
    pub fn is_loaded(&self) -> (b: bool)
        ensures
            b == self@ is Some,
    {
        self.loaded.is_some()
    }

    /// Loads a puppet, replacing any puppet loaded before: its parameter names,
    /// no parameter values set, and the render size.
    pub fn load(
        &mut self,
        resources: R,
        puppet_name: Option<String>,
        param_names: Vec<String>,
        texture_count: usize,
        width: u32,
        height: u32,
    ) -> (summary: LoadSummary)
        requires
            old(self).wf(),
        ensures
            final(self).wf(),
            final(self)@ == Some(
                PuppetView {
                    param_names: distinct_names(names_of(param_names@)),
                    overrides: Map::empty(),
                    width,
                    height,
                },
            ),
            final(self).loaded_resources() == Some(resources),
            final(self)@ matches Some(v) && overrides_known(v),
            summary.name@ == reported_name(puppet_name),
            puppet_name matches Some(n) ==> summary.name@ == n@,
            puppet_name is None ==> summary.name@ == "<unnamed>"@,
            summary.param_count == distinct_names(names_of(param_names@)).len(),
            summary.texture_count == texture_count,
            summary.render_width == width,
            summary.render_height == height,
    {
        let ghost given = names_of(param_names@);
        let mut names: Vec<String> = Vec::new();
        let mut values: Vec<Option<ParamValue>> = Vec::new();
        let mut i: usize = 0;
        while i < param_names.len()
            invariant
                i <= param_names@.len(),
                given == names_of(param_names@),
                names_of(names@) == distinct_names(given.take(i as int)),
                values@.len() == names@.len(),
                forall|j: int| 0 <= j < values@.len() ==> values@[j] is None,
            decreases param_names@.len() - i,
        {
            let pos = position_of(&names, &param_names[i]);
            let ghost before = names@;
            proof {
                assert(given.take(i + 1).drop_last() =~= given.take(i as int));
                assert(given.take(i + 1).last() == param_names@[i as int]@);
            }
            if pos.is_none() {
                names.push(param_names[i].clone());
                values.push(None);
                assert(names_of(names@) =~= names_of(before).push(param_names@[i as int]@));
            }
            i = i + 1;
        }
        proof {
            assert(given.take(param_names@.len() as int) =~= given);
            lemma_distinct_names(given);
        }
        let count = names.len();
        let state = PuppetState { resources, param_names: names, override_values: values, width, height };
        proof {
            assert(state@.overrides =~= Map::empty());
            state.lemma_overrides_known();
        }
        self.loaded = Some(state);
        let name = match puppet_name {
            Some(n) => n,
            None => String::from_str("<unnamed>"),
        };
        LoadSummary { name, param_count: count, texture_count, render_width: width, render_height: height }
    }

    /// The loaded puppet, for reading (`get_puppet_info`, `list_params`).
    pub fn puppet(&self) -> (res: Result<&PuppetState<R>, ToolError>)
        requires
            self.wf(),
        ensures
            res is Ok <==> self@ is Some,
            res matches Ok(p) ==> self@ == Some(p@) && p.wf() && self.loaded_resources() == Some(
                p.held_resources(),
            ),
            res is Err ==> res matches Err(ToolError::NoPuppetLoaded),
    {
        match &self.loaded {
            Some(p) => Ok(p),
            None => Err(ToolError::NoPuppetLoaded),
        }
    }

    /// The caller's resources of the loaded puppet, for drawing it.
    pub fn resources_mut(&mut self) -> (res: Option<&mut R>)
        requires
            old(self).wf(),
        ensures
            res is Some <==> old(self)@ is Some,
            final(self).wf(),
            final(self)@ == old(self)@,
            res matches Some(r) ==> old(self).loaded_resources() == Some(*r)
                && final(self).loaded_resources() == Some(*final(r)),
            res is None ==> final(self).loaded_resources() == old(self).loaded_resources(),
    {
        match &mut self.loaded {
            Some(p) => Some(&mut p.resources),
            None => None,
        }
    }

    /// `set_param`: sets the value of one parameter of the loaded puppet.
    pub fn set_param(&mut self, params: SetParamParams) -> (res: Result<ParamValue, ToolError>)
        requires
            old(self).wf(),
        ensures
            final(self).wf(),
            final(self).loaded_resources() == old(self).loaded_resources(),
            match old(self)@ {
                None => final(self)@ == old(self)@ && (res matches Err(ToolError::NoPuppetLoaded)),
                Some(v) => if v.param_names.contains(params.name@) {
                    final(self)@ == Some(with_override(v, params.name@, params.spec_value()))
                        && res == Ok::<ParamValue, ToolError>(params.spec_value())
                } else {
                    final(self)@ == old(self)@ && (res matches Err(ToolError::UnknownParameter(n))
                        && n@ == params.name@)
                },
            },
            final(self)@ matches Some(v) ==> overrides_known(v),
    {
        let value = params.value();
        match &mut self.loaded {
            None => Err(ToolError::NoPuppetLoaded),
            Some(p) => {
                proof {
                    p.lemma_overrides_known();
                }
                match position_of(&p.param_names, &params.name) {
                    None => Err(ToolError::UnknownParameter(params.name)),
                    Some(i) => {
                        let ghost old_p = *p;
                        let ghost names = names_of(p.param_names@);
                        p.override_values.set(i, Some(value));
                        proof {
                            let k = params.name@;
                            let new_map = p@.overrides;
                            let expected = old_p@.overrides.insert(k, value);
                            lemma_index_of_unique(names, i as int);
                            assert forall|key: Seq<char>| #[trigger] new_map.dom().contains(key) <==> expected.dom().contains(key) by {
                                if key == k {
                                    assert(names[i as int] == key);
                                } else if new_map.dom().contains(key) {
                                    let t = choose|t: int|
                                        0 <= t < names.len() && #[trigger] names[t] == key
                                            && p.override_values@[t] is Some;
                                    assert(old_p.override_values@[t] is Some);
                                } else if expected.dom().contains(key) {
                                    let t = choose|t: int|
                                        0 <= t < names.len() && #[trigger] names[t] == key
                                            && old_p.override_values@[t] is Some;
                                    assert(p.override_values@[t] is Some);
                                }
                            }
                            assert forall|key: Seq<char>| #[trigger] new_map.dom().contains(key) implies new_map[key] == expected[key] by {
                                if key != k {
                                    let t = choose|t: int|
                                        0 <= t < names.len() && #[trigger] names[t] == key
                                            && p.override_values@[t] is Some;
                                    lemma_index_of_unique(names, t);
                                }
                            }
                            assert(new_map =~= expected);
                            p.lemma_overrides_known();
                        }
                        Ok(value)
                    },
                }
            },
        }
    }

    /// `render`, before drawing: applies the sizes the request gives (keeping the
    /// current width or height where one is omitted) and says what to draw.
    pub fn prepare_render(&mut self, params: &RenderParams) -> (res: Result<RenderPlan, ToolError>)
        requires
            old(self).wf(),
        ensures
            final(self).wf(),
            final(self).loaded_resources() == old(self).loaded_resources(),
            old(self)@ is None ==> final(self)@ == old(self)@ && res matches Err(
                ToolError::NoPuppetLoaded,
            ),
            old(self)@ matches Some(v) ==> match params.spec_size_after(v.width, v.height) {
                Some((w, h)) => final(self)@ == Some(with_size(v, w, h)) && res == Ok::<
                    RenderPlan,
                    ToolError,
                >(RenderPlan { width: w, height: h, resize: true }),
                None => final(self)@ == old(self)@ && res == Ok::<RenderPlan, ToolError>(
                    RenderPlan { width: v.width, height: v.height, resize: false },
                ),
            },
            old(self)@ matches Some(v) ==> final(self)@ == Some(after_render_request(v, *params)),
            final(self)@ matches Some(v) ==> overrides_known(v),
    {
        match &mut self.loaded {
            None => Err(ToolError::NoPuppetLoaded),
            Some(p) => {
                let res = match params.size_after(p.width, p.height) {
                    Some((w, h)) => {
                        p.width = w;
                        p.height = h;
                        RenderPlan { width: w, height: h, resize: true }
                    },
                    None => RenderPlan { width: p.width, height: p.height, resize: false },
                };
                proof {
                    p.lemma_overrides_known();
                }
                Ok(res)
            },
        }
    }
}


/// Law: after a parameter's value is set, reading it back gives that value, and
/// the values of the other parameters are as they were.
pub proof fn law_read_after_set(v: PuppetView, name: Seq<char>, value: ParamValue, other: Seq<char>)
    requires
        other != name,
    ensures
        with_override(v, name, value).overrides.dom().contains(name),
        with_override(v, name, value).overrides[name] == value,
        with_override(v, name, value).overrides.dom().contains(other) == v.overrides.dom().contains(
            other,
        ),
        v.overrides.dom().contains(other) ==> with_override(v, name, value).overrides[other]
            == v.overrides[other],
{
}

/// Law: setting a parameter twice leaves the value set last.
pub proof fn law_last_set_wins(v: PuppetView, name: Seq<char>, first: ParamValue, second: ParamValue)
    ensures
        with_override(with_override(v, name, first), name, second) == with_override(v, name, second),
{
    assert(with_override(with_override(v, name, first), name, second).overrides =~= with_override(
        v,
        name,
        second,
    ).overrides);
}

/// Law: setting two different parameters gives the same state in either order.
pub proof fn law_sets_of_different_params_commute(
    v: PuppetView,
    a: Seq<char>,
    va: ParamValue,
    b: Seq<char>,
    vb: ParamValue,
)
    requires
        a != b,
    ensures
        with_override(with_override(v, a, va), b, vb) == with_override(with_override(v, b, vb), a, va),
{
    assert(with_override(with_override(v, a, va), b, vb).overrides =~= with_override(
        with_override(v, b, vb),
        a,
        va,
    ).overrides);
}

/// Law: setting a parameter changes neither the parameter names nor the render
/// size, and resizing changes neither the parameter names nor the values set;
/// both keep every value set naming a parameter of the puppet.
pub proof fn law_steps_keep_what_they_do_not_touch(
    v: PuppetView,
    name: Seq<char>,
    value: ParamValue,
    width: u32,
    height: u32,
)
    requires
        overrides_known(v),
        v.param_names.contains(name),
    ensures
        with_override(v, name, value).param_names == v.param_names,
        with_override(v, name, value).width == v.width,
        with_override(v, name, value).height == v.height,
        overrides_known(with_override(v, name, value)),
        with_size(v, width, height).param_names == v.param_names,
        with_size(v, width, height).overrides == v.overrides,
        overrides_known(with_size(v, width, height)),
{
}

/// Law: in every state of the server, each parameter value the user set belongs
/// to a parameter of the loaded puppet, and no parameter name is listed twice.
pub proof fn law_session_invariant<R>(s: &InoxSession<R>)
    requires
        s.wf(),
    ensures
        s@ matches Some(v) ==> overrides_known(v) && v.param_names.no_duplicates(),
{
    if let Some(p) = &s.loaded {
        p.lemma_overrides_known();
    }
}

/// Law: repeating a `render` request changes nothing more than the first one did,
/// and a render request never changes the parameter names or the values set.
pub proof fn law_render_request_repeats(v: PuppetView, params: RenderParams)
    ensures
        after_render_request(after_render_request(v, params), params) == after_render_request(
            v,
            params,
        ),
        after_render_request(v, params).param_names == v.param_names,
        after_render_request(v, params).overrides == v.overrides,
{
}

/// Law: `load_puppet` reports a named puppet by its name as it is, and an
/// unnamed one as `<unnamed>`.
pub proof fn law_reported_name_is_the_puppet_name(name: String)
    ensures
        reported_name(Some(name)) == name@,
        reported_name(None) == "<unnamed>"@,
{
}

/// Law: a refused call answers with the original's texts: the missing puppet,
/// the unknown name quoted, or the encoder's description after a fixed prefix.
pub proof fn law_error_texts(name: String, detail: String)
    ensures
        error_text(ToolError::NoPuppetLoaded) == "No puppet loaded. Call load_puppet first."@,
        error_text(ToolError::UnknownParameter(name)) == "No parameter named '"@ + name@ + "'"@,
        error_text(ToolError::RenderFailed(detail)) == "Render failed: Failed to encode PNG: "@
            + detail@,
{
}

/// Law: after a render request the size is the one each given size asks for,
/// with each omitted size as it was.
pub proof fn law_render_request_size(v: PuppetView, params: RenderParams, width: u32, height: u32)
    ensures
        params.width matches Some(w) ==> after_render_request(v, params).width == w,
        params.width is None ==> after_render_request(v, params).width == v.width,
        params.height matches Some(h) ==> after_render_request(v, params).height == h,
        params.height is None ==> after_render_request(v, params).height == v.height,
        with_size(v, width, height).width == width,
        with_size(v, width, height).height == height,
{
}

} // verus!
