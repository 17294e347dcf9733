use vstd::prelude::*;
use crate::types::BType;

verus! {

/// One variable: its name, its value and the type it was declared with.
#[derive(Debug)]
pub struct Binding<V> {
    pub name: String,
    pub value: V,
    pub var_type: BType,
}

/// What a frame maps each of its names to: the value and the declared type.
pub open spec fn frame_map<V>(s: Seq<Binding<V>>) -> Map<Seq<char>, (V, BType)>
    decreases s.len(),
{
    if s.len() == 0 {
        Map::empty()
    } else {
        frame_map(s.drop_last()).insert(s.last().name@, (s.last().value, s.last().var_type))
    }
}

/// No name is bound twice in one frame.
pub open spec fn unique_names<V>(s: Seq<Binding<V>>) -> bool {
    forall|i: int, j: int|
        #![trigger s[i], s[j]]
        0 <= i < j < s.len() ==> s[i].name@ != s[j].name@
}

proof fn lemma_frame_map_index<V>(s: Seq<Binding<V>>, i: int)
    requires
        unique_names(s),
        0 <= i < s.len(),
    ensures
        frame_map(s).contains_key(s[i].name@),
        frame_map(s)[s[i].name@] == (s[i].value, s[i].var_type),
    decreases s.len(),
{
    if i < s.len() - 1 {
        let t = s.drop_last();
        assert(t[i] == s[i]);
        assert(unique_names(t)) by {
            assert forall|a: int, b: int| #![trigger t[a], t[b]] 0 <= a < b < t.len() implies t[a].name@
                != t[b].name@ by {
                assert(t[a] == s[a] && t[b] == s[b]);
            }
        }
        lemma_frame_map_index(t, i);
        assert(s[i].name@ != s.last().name@) by {
            assert(s[i] == s[i] && s[s.len() - 1] == s.last());
        }
    }
}

proof fn lemma_frame_map_absent<V>(s: Seq<Binding<V>>, k: Seq<char>)
    requires
        forall|i: int| 0 <= i < s.len() ==> (#[trigger] s[i]).name@ != k,
    ensures
        !frame_map(s).contains_key(k),
    decreases s.len(),
{
    if s.len() > 0 {
        let t = s.drop_last();
        assert forall|i: int| 0 <= i < t.len() implies (#[trigger] t[i]).name@ != k by {
            assert(t[i] == s[i]);
        }
        lemma_frame_map_absent(t, k);
        assert(s[s.len() - 1] == s.last());
    }
}

proof fn lemma_frame_map_update<V>(s: Seq<Binding<V>>, j: int, b: Binding<V>)
    requires
        unique_names(s),
        0 <= j < s.len(),
        b.name@ == s[j].name@,
    ensures
        unique_names(s.update(j, b)),
        frame_map(s.update(j, b)) == frame_map(s).insert(b.name@, (b.value, b.var_type)),
    decreases s.len(),
{
    let u = s.update(j, b);
    assert(unique_names(u)) by {
        assert forall|a: int, c: int| #![trigger u[a], u[c]] 0 <= a < c < u.len() implies u[a].name@
            != u[c].name@ by {
            assert(s[a] == s[a] && s[c] == s[c]);
        }
    }
    let t = s.drop_last();
    if j == s.len() - 1 {
        assert(u.drop_last() =~= t);
        assert(frame_map(u) =~= frame_map(s).insert(b.name@, (b.value, b.var_type)));
    } else {
        assert(unique_names(t)) by {
            assert forall|a: int, c: int| #![trigger t[a], t[c]] 0 <= a < c < t.len() implies t[a].name@
                != t[c].name@ by {
                assert(t[a] == s[a] && t[c] == s[c]);
            }
        }
        assert(u.drop_last() =~= t.update(j, b));
        lemma_frame_map_update(t, j, b);
        assert(s[j].name@ != s[s.len() - 1].name@);
        assert(u.last() == s.last());
        assert(frame_map(u) =~= frame_map(s).insert(b.name@, (b.value, b.var_type)));
    }
}

proof fn lemma_frame_map_push<V>(s: Seq<Binding<V>>, b: Binding<V>)
    requires
        unique_names(s),
        forall|i: int| 0 <= i < s.len() ==> (#[trigger] s[i]).name@ != b.name@,
    ensures
        unique_names(s.push(b)),
        frame_map(s.push(b)) == frame_map(s).insert(b.name@, (b.value, b.var_type)),
{
    let u = s.push(b);
    assert(u.drop_last() =~= s);
    assert(unique_names(u)) by {
        assert forall|a: int, c: int| #![trigger u[a], u[c]] 0 <= a < c < u.len() implies u[a].name@
            != u[c].name@ by {
            if c == s.len() {
                assert(u[a] == s[a]);
            } else {
                assert(u[a] == s[a] && u[c] == s[c]);
            }
        }
    }
}

/// `b` binds the same names as `a`, each with the same declared type and a
/// clone of its value.
pub open spec fn copied_frame<V: Clone>(
    a: Map<Seq<char>, (V, BType)>,
    b: Map<Seq<char>, (V, BType)>,
) -> bool {
    &&& a.dom() == b.dom()
    &&& forall|k: Seq<char>|
        #[trigger] a.contains_key(k) ==> b[k].1 == a[k].1 && cloned(a[k].0, b[k].0)
}

/// Binding by binding, `t` has the names and types of `s` and clones of its values.
pub open spec fn copied_bindings<V: Clone>(s: Seq<Binding<V>>, t: Seq<Binding<V>>) -> bool {
    &&& s.len() == t.len()
    &&& forall|i: int|
        0 <= i < s.len() ==> {
            &&& (#[trigger] t[i]).name@ == s[i].name@
            &&& t[i].var_type == s[i].var_type
            &&& cloned(s[i].value, t[i].value)
        }
}

proof fn lemma_frame_map_copied<V: Clone>(s: Seq<Binding<V>>, t: Seq<Binding<V>>)
    requires
        copied_bindings(s, t),
    ensures
        copied_frame(frame_map(s), frame_map(t)),
        unique_names(s) ==> unique_names(t),
    decreases s.len(),
{
    assert(unique_names(s) ==> unique_names(t)) by {
        if unique_names(s) {
            assert forall|a: int, c: int| #![trigger t[a], t[c]] 0 <= a < c < t.len() implies t[a].name@
                != t[c].name@ by {
                assert(s[a] == s[a] && s[c] == s[c]);
            }
        }
    }
    if s.len() > 0 {
        let s1 = s.drop_last();
        let t1 = t.drop_last();
        assert(copied_bindings(s1, t1)) by {
            assert forall|i: int| 0 <= i < s1.len() implies {
                &&& (#[trigger] t1[i]).name@ == s1[i].name@
                &&& t1[i].var_type == s1[i].var_type
                &&& cloned(s1[i].value, t1[i].value)
            } by {
                assert(t1[i] == t[i] && s1[i] == s[i]);
            }
        }
        lemma_frame_map_copied(s1, t1);
        let n = s.len() - 1;
        assert(t[n].name@ == s[n].name@ && t[n].var_type == s[n].var_type);
        assert(frame_map(s).dom() =~= frame_map(t).dom());
    } else {
        assert(frame_map(s).dom() =~= frame_map(t).dom());
    }
}

/// The variables declared directly in one level of scope, each name at most once.
#[derive(Debug)]
pub struct Frame<V> {
    vars: Vec<Binding<V>>,
}

impl<V> View for Frame<V> {
    type V = Map<Seq<char>, (V, BType)>;

    closed spec fn view(&self) -> Map<Seq<char>, (V, BType)> {
        frame_map(self.vars@)
    }
}

impl<V> Frame<V> {
    pub closed spec fn wf(&self) -> bool {
        unique_names(self.vars@)
    }

    fn empty() -> (r: Self)
        ensures
            r.wf(),
            r@ == Map::<Seq<char>, (V, BType)>::empty(),
    {
        let r = Frame { vars: Vec::new() };
        assert(r@ =~= Map::<Seq<char>, (V, BType)>::empty());
        r
    }

    /// The position of `key` in this frame.
    fn find(&self, key: &String) -> (r: Option<usize>)
        requires
            self.wf(),
        ensures
            match r {
                Some(j) => j < self.vars@.len() && self.vars@[j as int].name@ == key@
                    && self@.contains_key(key@) && self@[key@] == (
                    self.vars@[j as int].value,
                    self.vars@[j as int].var_type,
                ),
                None => !self@.contains_key(key@),
            },
    {
        let mut j: usize = 0;
        while j < self.vars.len()
            invariant
                self.wf(),
                j <= self.vars@.len(),
                forall|i: int| 0 <= i < j ==> (#[trigger] self.vars@[i]).name@ != key@,
            decreases self.vars@.len() - j,
        {
            if self.vars[j].name == *key {
                proof {
                    lemma_frame_map_index(self.vars@, j as int);
                }
                return Some(j);
            }
            j = j + 1;
        }
        proof {
            lemma_frame_map_absent(self.vars@, key@);
        }
        None
    }

    /// Binds `key` to `value` with type `t`, replacing any earlier binding of it.
    fn insert(&mut self, key: String, value: V, t: BType)
        requires
            old(self).wf(),
        ensures
            final(self).wf(),
            final(self)@ == old(self)@.insert(key@, (value, t)),
    {
        let b = Binding { name: key, value, var_type: t };
        match self.find(&b.name) {
            Some(j) => {
                proof {
                    lemma_frame_map_update(self.vars@, j as int, b);
                }
                self.vars.set(j, b);
            },
            None => {
                proof {
                    assert forall|i: int| 0 <= i < self.vars@.len() implies (
                    #[trigger] self.vars@[i]).name@ != b.name@ by {
                        if self.vars@[i].name@ == b.name@ {
                            lemma_frame_map_index(self.vars@, i);
                        }
                    }
                    lemma_frame_map_push(self.vars@, b);
                }
                self.vars.push(b);
            },
        }
    }
}

impl<V: Clone> Frame<V> {
    /// A copy of this frame: the same names and types, with cloned values.
    fn duplicate(&self) -> (r: Self)
        requires
            self.wf(),
        ensures
            r.wf(),
            copied_frame(self@, r@),
    {
        let mut vars: Vec<Binding<V>> = Vec::new();
        let mut j: usize = 0;
        while j < self.vars.len()
            invariant
                j <= self.vars@.len(),
                copied_bindings(self.vars@.take(j as int), vars@),
            decreases self.vars@.len() - j,
        {
            let b = &self.vars[j];
            let c = Binding { name: b.name.clone(), value: b.value.clone(), var_type: b.var_type };
            let ghost before = vars@;
            vars.push(c);
            proof {
                let s1 = self.vars@.take(j + 1);
                assert forall|i: int| 0 <= i < s1.len() implies {
                    &&& (#[trigger] vars@[i]).name@ == s1[i].name@
                    &&& vars@[i].var_type == s1[i].var_type
                    &&& cloned(s1[i].value, vars@[i].value)
                } by {
                    if i < j {
                        assert(s1[i] == self.vars@.take(j as int)[i]);
                        assert(vars@[i] == before[i]);
                    }
                }
            }
            j = j + 1;
        }
        proof {
            assert(self.vars@.take(j as int) =~= self.vars@);
            lemma_frame_map_copied(self.vars@, vars@);
        }
        Frame { vars }
    }
}


/// The index of the innermost frame that binds `k`, or -1 when none does.
pub open spec fn holder<V>(frames: Seq<Map<Seq<char>, (V, BType)>>, k: Seq<char>) -> int
    decreases frames.len(),
{
    if frames.len() == 0 {
        -1
    } else if frames.last().contains_key(k) {
        frames.len() - 1
    } else {
        holder(frames.drop_last(), k)
    }
}

/// What `k` denotes: the binding in the innermost frame that has one.
pub open spec fn lookup<V>(frames: Seq<Map<Seq<char>, (V, BType)>>, k: Seq<char>) -> Option<
    (V, BType),
> {
    let i = holder(frames, k);
    if i < 0 {
        None
    } else {
        Some(frames[i][k])
    }
}

/// `holder` names a frame that binds `k`, and no frame inside it does.
pub proof fn lemma_holder<V>(frames: Seq<Map<Seq<char>, (V, BType)>>, k: Seq<char>)
    ensures
        -1 <= holder(frames, k) < frames.len(),
        holder(frames, k) >= 0 ==> frames[holder(frames, k)].contains_key(k),
        forall|j: int|
            holder(frames, k) < j < frames.len() ==> !(#[trigger] frames[j]).contains_key(k),
    decreases frames.len(),
{
    if frames.len() > 0 && !frames.last().contains_key(k) {
        let t = frames.drop_last();
        lemma_holder(t, k);
        assert forall|j: int| holder(frames, k) < j < frames.len() implies !(
        #[trigger] frames[j]).contains_key(k) by {
            if j < frames.len() - 1 {
                assert(frames[j] == t[j]);
            }
        }
    }
}

/// The rule of a `bel` or `ster` variable that a value breaks.
#[derive(Debug, Clone, Copy, PartialEq, Eq, Structural)]
pub enum AssignError {
    /// A `bel` variable was given something other than a number.
    NotANumber,
    /// A `bel` variable was given a number above 1000.
    AboveMaximum,
    /// A `ster` variable was given something other than a string, of type `got`.
    NotAString { got: BType },
}

/// The rule that a variable of type `t` puts on a new value of type `v_type`
/// (a number has type `Int`); `over_limit` says whether that value is a
/// number above 1000.
pub open spec fn constraint_error(t: BType, v_type: BType, over_limit: bool) -> Option<AssignError> {
    if t == BType::Bel {
        if v_type != BType::Int {
            Some(AssignError::NotANumber)
        } else if over_limit {
            Some(AssignError::AboveMaximum)
        } else {
            None
        }
    } else if t == BType::Ster && v_type != BType::String {
        Some(AssignError::NotAString { got: v_type })
    } else {
        None
    }
}

/// A `ster` variable takes only strings: a value of any other type is
/// refused as not a string, naming that type, whatever its size.
pub proof fn law_ster_takes_only_strings(v_type: BType, over_limit: bool)
    ensures
        v_type == BType::String ==> constraint_error(BType::Ster, v_type, over_limit) is None,
        v_type != BType::String ==> constraint_error(BType::Ster, v_type, over_limit) == Some(
            AssignError::NotAString { got: v_type },
        ),
{
}

/// A `bel` variable takes only numbers, and of those only ones up to 1000:
/// a non-number is refused as such whatever its size, a number above 1000
/// as too large, and any other number is accepted.
pub proof fn law_bel_takes_small_numbers(v_type: BType, over_limit: bool)
    ensures
        v_type != BType::Int ==> constraint_error(BType::Bel, v_type, over_limit) == Some(
            AssignError::NotANumber,
        ),
        v_type == BType::Int && over_limit ==> constraint_error(BType::Bel, v_type, over_limit)
            == Some(AssignError::AboveMaximum),
        v_type == BType::Int && !over_limit ==> constraint_error(BType::Bel, v_type, over_limit)
            is None,
{
}

/// Variables of every type but `bel` and `ster` take any value.
pub proof fn law_other_types_take_anything(t: BType, v_type: BType, over_limit: bool)
    requires
        t != BType::Bel,
        t != BType::Ster,
    ensures
        constraint_error(t, v_type, over_limit) is None,
{
}

/// Checks a value of type `v_type` against a variable of type `t`: a `bel`
/// takes only numbers up to 1000, a `ster` only strings, the rest anything.
pub fn check_constraint(t: BType, v_type: BType, over_limit: bool) -> (r: Option<AssignError>)
    ensures
        r == constraint_error(t, v_type, over_limit),
{
    if t == BType::Bel {
        if v_type != BType::Int {
            Some(AssignError::NotANumber)
        } else if over_limit {
            Some(AssignError::AboveMaximum)
        } else {
            None
        }
    } else if t == BType::Ster && v_type != BType::String {
        Some(AssignError::NotAString { got: v_type })
    } else {
        None
    }
}

/// A chain of nested scopes, outermost first; names resolve in the innermost
/// frame that binds them.
#[derive(Debug)]
pub struct Scope<V> {
    frames: Vec<Frame<V>>,
}

impl<V> View for Scope<V> {
    type V = Seq<Map<Seq<char>, (V, BType)>>;

    closed spec fn view(&self) -> Seq<Map<Seq<char>, (V, BType)>> {
        self.frames@.map_values(|f: Frame<V>| f@)
    }
}

impl<V> Scope<V> {
    pub closed spec fn wf(&self) -> bool {
        &&& self.frames@.len() > 0
        &&& forall|i: int| 0 <= i < self.frames@.len() ==> (#[trigger] self.frames@[i]).wf()
    }

    /// A scope with one empty frame, inside `parent` when there is one.
    pub fn new(parent: Option<Scope<V>>) -> (r: Self)
        requires
            parent matches Some(p) ==> p.wf(),
        ensures
            r.wf(),
            r@ == match parent {
                Some(p) => p@.push(Map::empty()),
                None => seq![Map::<Seq<char>, (V, BType)>::empty()],
            },
    {
        let mut frames = match parent {
            Some(p) => p.frames,
            None => Vec::new(),
        };
        let ghost old_frames = frames@;
        frames.push(Frame::empty());
        let r = Scope { frames };
        assert(r@ =~= old_frames.map_values(|f: Frame<V>| f@).push(Map::empty()));
        r
    }

    /// The frame and position of the binding that `key` resolves to.
    fn locate(&self, key: &String) -> (r: Option<(usize, usize)>)
        requires
            self.wf(),
        ensures
            match r {
                Some((i, j)) => {
                    &&& i == holder(self@, key@)
                    &&& i < self.frames@.len()
                    &&& j < self.frames@[i as int].vars@.len()
                    &&& self@[i as int][key@] == (
                        self.frames@[i as int].vars@[j as int].value,
                        self.frames@[i as int].vars@[j as int].var_type,
                    )
                },
                None => holder(self@, key@) == -1,
            },
    {
        let mut i = self.frames.len();
        while i > 0
            invariant
                self.wf(),
                i <= self.frames@.len(),
                forall|j: int| i <= j < self.frames@.len() ==> !(#[trigger] self@[j]).contains_key(key@),
            decreases i,
        {
            i = i - 1;
            assert(self@[i as int] == self.frames@[i as int]@);
            match self.frames[i].find(key) {
                Some(j) => {
                    proof {
                        lemma_holder(self@, key@);
                    }
                    return Some((i, j));
                },
                None => {},
            }
        }
        proof {
            lemma_holder(self@, key@);
        }
        None
    }

    /// The value that `name` resolves to, if any frame binds it.
    pub fn get(&self, name: &str) -> (r: Option<&V>)
        requires
            self.wf(),
        ensures
            match lookup(self@, name@) {
                Some(e) => r matches Some(v) && *v == e.0,
                None => r is None,
            },
    {
        let key = name.to_string();
        match self.locate(&key) {
            Some((i, j)) => Some(&self.frames[i].vars[j].value),
            None => None,
        }
    }

    /// Binds `key` in frame `i`, which must exist.
    fn bind_in(&mut self, i: usize, key: String, v: V, t: BType)
        requires
            old(self).wf(),
            i < old(self)@.len(),
        ensures
            final(self).wf(),
            final(self)@ == old(self)@.update(i as int, old(self)@[i as int].insert(key@, (v, t))),
    {
        let ghost k = key@;
        let ghost entry = (v, t);
        let ghost before = self.frames@;
        self.frames[i].insert(key, v, t);
        proof {
            assert forall|j: int| 0 <= j < self.frames@.len() implies (
            #[trigger] self.frames@[j]).wf() by {
                if j != i {
                    assert(self.frames@[j] == before[j]);
                }
            }
            assert(self@ =~= old(self)@.update(i as int, old(self)@[i as int].insert(k, entry)));
        }
    }

    /// Declares `name` in the innermost frame with no fixed type, replacing
    /// any binding of it there.
    pub fn define(&mut self, name: &str, v: V)
        requires
            old(self).wf(),
        ensures
            final(self).wf(),
            final(self)@ == old(self)@.update(
                old(self)@.len() - 1,
                old(self)@.last().insert(name@, (v, BType::Any)),
            ),
    {
        let top = self.frames.len() - 1;
        self.bind_in(top, name.to_string(), v, BType::Any);
    }

    /// Declares `name` in the innermost frame with type `t`, replacing any
    /// binding of it there.
    pub fn define_typed(&mut self, name: &str, v: V, t: BType)
        requires
            old(self).wf(),
        ensures
            final(self).wf(),
            final(self)@ == old(self)@.update(
                old(self)@.len() - 1,
                old(self)@.last().insert(name@, (v, t)),
            ),
    {
        let top = self.frames.len() - 1;
        self.bind_in(top, name.to_string(), v, t);
    }

    /// The declared type of the variable that `name` resolves to, if any
    /// frame binds it.
    pub fn declared_type(&self, name: &str) -> (r: Option<BType>)
        requires
            self.wf(),
        ensures
            match lookup(self@, name@) {
                Some(e) => r == Some(e.1),
                None => r is None,
            },
    {
        let key = name.to_string();
        match self.locate(&key) {
            Some((i, j)) => Some(self.frames[i].vars[j].var_type),
            None => None,
        }
    }

    /// Assigns `v` to the variable that `name` resolves to, in the innermost
    /// frame that binds it; the variable keeps its declared type. `v_type` is
    /// the type of `v`, and `over_limit` says whether it is a number above
    /// 1000. Some frame must bind `name`, and `v` must meet the rule of its
    /// declared type (see `declared_type` and `check_constraint`).
    pub fn set(&mut self, name: &str, v: V, v_type: BType, over_limit: bool)
        requires
            old(self).wf(),
            holder(old(self)@, name@) >= 0,
            constraint_error(old(self)@[holder(old(self)@, name@)][name@].1, v_type, over_limit)
                is None,
        ensures
            final(self).wf(),
            ({
                let i = holder(old(self)@, name@);
                final(self)@ == old(self)@.update(
                    i,
                    old(self)@[i].insert(name@, (v, old(self)@[i][name@].1)),
                )
            }),
    {
        let key = name.to_string();
        match self.locate(&key) {
            None => vstd::pervasive::unreached(),
            Some((i, j)) => {
                let t = self.frames[i].vars[j].var_type;
                self.bind_in(i, key, v, t);
            },
        }
    }
}

impl<V: Clone> Scope<V> {
    /// A copy of this chain of scopes: frame by frame the same names with
    /// the same declared types, each value cloned.
    pub fn duplicate(&self) -> (r: Self)
        requires
            self.wf(),
        ensures
            r.wf(),
            r@.len() == self@.len(),
            forall|i: int| 0 <= i < self@.len() ==> copied_frame(self@[i], #[trigger] r@[i]),
    {
        let mut frames: Vec<Frame<V>> = Vec::new();
        let mut i: usize = 0;
        while i < self.frames.len()
            invariant
                self.wf(),
                i <= self.frames@.len(),
                frames@.len() == i,
                forall|j: int| 0 <= j < i ==> (#[trigger] frames@[j]).wf(),
                forall|j: int| 0 <= j < i ==> copied_frame(self.frames@[j]@, #[trigger] frames@[j]@),
            decreases self.frames@.len() - i,
        {
            assert(self.frames@[i as int].wf());
            let f = self.frames[i].duplicate();
            frames.push(f);
            i = i + 1;
        }
        let r = Scope { frames };
        assert forall|j: int| 0 <= j < self@.len() implies copied_frame(self@[j], #[trigger] r@[j]) by {
            assert(self@[j] == self.frames@[j]@);
            assert(r@[j] == r.frames@[j]@);
        }
        r
    }
}

/// A name declared in the innermost frame reads back as what was declared
/// there, with its type.
pub proof fn law_define_then_lookup<V>(
    frames: Seq<Map<Seq<char>, (V, BType)>>,
    k: Seq<char>,
    v: V,
    t: BType,
)
    requires
        frames.len() > 0,
    ensures
        lookup(frames.update(frames.len() - 1, frames.last().insert(k, (v, t))), k) == Some((v, t)),
{
    let after = frames.update(frames.len() - 1, frames.last().insert(k, (v, t)));
    assert(after.last().contains_key(k));
}

proof fn lemma_insert_keeps_other<V>(
    frames: Seq<Map<Seq<char>, (V, BType)>>,
    i: int,
    k: Seq<char>,
    e: (V, BType),
    other: Seq<char>,
)
    requires
        0 <= i < frames.len(),
        other != k,
    ensures
        lookup(frames.update(i, frames[i].insert(k, e)), other) == lookup(frames, other),
{
    let after = frames.update(i, frames[i].insert(k, e));
    lemma_holder(frames, other);
    lemma_holder(after, other);
    assert forall|j: int| 0 <= j < frames.len() implies (#[trigger] after[j]).contains_key(other)
        == frames[j].contains_key(other) by {
        if j == i {
            assert(after[j] == frames[i].insert(k, e));
        }
    }
    let hf = holder(frames, other);
    let ha = holder(after, other);
    if hf >= 0 {
        assert(after[hf].contains_key(other));
    }
    if ha >= 0 {
        assert(frames[ha].contains_key(other));
    }
    assert(ha == hf);
    if hf >= 0 && hf == i {
        assert(after[i][other] == frames[i][other]);
    }
}

/// Declaring one name in the innermost frame changes what no other name reads.
pub proof fn law_define_keeps_other_names<V>(
    frames: Seq<Map<Seq<char>, (V, BType)>>,
    k: Seq<char>,
    other: Seq<char>,
    v: V,
    t: BType,
)
    requires
        frames.len() > 0,
        other != k,
    ensures
        lookup(frames.update(frames.len() - 1, frames.last().insert(k, (v, t))), other) == lookup(
            frames,
            other,
        ),
{
    lemma_insert_keeps_other(frames, frames.len() - 1, k, (v, t), other);
}

/// Replacing the entry of the frame that holds a name leaves every name
/// resolving in the same frame, and that name reading the new entry.
pub proof fn law_assign_then_lookup<V>(
    frames: Seq<Map<Seq<char>, (V, BType)>>,
    k: Seq<char>,
    other: Seq<char>,
    v: V,
)
    requires
        holder(frames, k) >= 0,
    ensures
        ({
            let i = holder(frames, k);
            let t = frames[i][k].1;
            let after = frames.update(i, frames[i].insert(k, (v, t)));
            &&& lookup(after, k) == Some((v, t))
            &&& other != k ==> lookup(after, other) == lookup(frames, other)
        }),
{
    let i = holder(frames, k);
    let t = frames[i][k].1;
    let after = frames.update(i, frames[i].insert(k, (v, t)));
    lemma_holder(frames, k);
    lemma_holder(after, k);
    assert(after[i].contains_key(k));
    assert forall|j: int| i < j < frames.len() implies !(#[trigger] after[j]).contains_key(k) by {
        assert(after[j] == frames[j]);
    }
    if other != k {
        lemma_insert_keeps_other(frames, i, k, (v, t), other);
    }
}

/// A new scope inside a parent resolves every name as the parent does.
pub proof fn law_new_scope_sees_parent<V>(parent: Seq<Map<Seq<char>, (V, BType)>>, k: Seq<char>)
    ensures
        lookup(parent.push(Map::empty()), k) == lookup(parent, k),
{
    let child = parent.push(Map::<Seq<char>, (V, BType)>::empty());
    assert(child.drop_last() =~= parent);
    assert(!child.last().contains_key(k));
    lemma_holder(parent, k);
    if holder(parent, k) >= 0 {
        assert(child[holder(parent, k)] == parent[holder(parent, k)]);
    }
}

} // verus!
