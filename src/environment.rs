//! Scope frames. Calls chain a new frame onto the frame active at the call
//! and drop it on return, and no value captures a frame, so the chain is a
//! stack: the last frame is the innermost.
use vstd::prelude::*;
use crate::text::str_eq;
use crate::ast::names_view;
use crate::value::{ErrorView, ExecError, Value, ValueView};

verus! {

/// The bindings of one frame: later entries win.
pub open spec fn frame_map(entries: Seq<(String, Value)>) -> Map<Seq<char>, ValueView>
    decreases entries.len(),
{
    if entries.len() == 0 {
        Map::empty()
    } else {
        frame_map(entries.drop_last()).insert(entries.last().0@, entries.last().1@)
    }
}

/// No name is bound twice in one frame.
pub open spec fn keys_unique(entries: Seq<(String, Value)>) -> bool {
    forall|i: int, j: int|
        0 <= i < entries.len() && 0 <= j < entries.len() && i != j ==> #[trigger] entries[i].0@
            != #[trigger] entries[j].0@
}

/// The index of the innermost frame that binds `name`.
pub open spec fn find_frame(frames: Seq<Map<Seq<char>, ValueView>>, name: Seq<char>) -> Option<
    int,
>
    decreases frames.len(),
{
    if frames.len() == 0 {
        None
    } else if frames.last().contains_key(name) {
        Some(frames.len() - 1)
    } else {
        find_frame(frames.drop_last(), name)
    }
}

/// What `name` resolves to, searching outward from the innermost frame.
pub open spec fn lookup(frames: Seq<Map<Seq<char>, ValueView>>, name: Seq<char>) -> Option<
    ValueView,
> {
    match find_frame(frames, name) {
        Some(j) => Some(frames[j][name]),
        None => None,
    }
}

/// The frames after binding `name` in the innermost one.
pub open spec fn define_in(
    frames: Seq<Map<Seq<char>, ValueView>>,
    name: Seq<char>,
    v: ValueView,
) -> Seq<Map<Seq<char>, ValueView>> {
    frames.update(frames.len() - 1, frames.last().insert(name, v))
}

/// The frames after assigning to `name`: the innermost frame that binds it
/// changes, and only that one.
pub open spec fn assign_in(
    frames: Seq<Map<Seq<char>, ValueView>>,
    name: Seq<char>,
    v: ValueView,
) -> Option<Seq<Map<Seq<char>, ValueView>>> {
    match find_frame(frames, name) {
        Some(j) => Some(frames.update(j, frames[j].insert(name, v))),
        None => None,
    }
}

proof fn lemma_frame_contains(entries: Seq<(String, Value)>, name: Seq<char>)
    ensures
        frame_map(entries).contains_key(name) <==> exists|i: int|
            0 <= i < entries.len() && #[trigger] entries[i].0@ == name,
    decreases entries.len(),
{
    if entries.len() > 0 {
        lemma_frame_contains(entries.drop_last(), name);
        if frame_map(entries.drop_last()).contains_key(name) {
            let i = choose|i: int|
                0 <= i < entries.drop_last().len() && #[trigger] entries.drop_last()[i].0@ == name;
            assert(entries[i].0@ == name);
        }
        if exists|i: int| 0 <= i < entries.len() && #[trigger] entries[i].0@ == name {
            let i = choose|i: int| 0 <= i < entries.len() && #[trigger] entries[i].0@ == name;
            if i < entries.len() - 1 {
                assert(entries.drop_last()[i].0@ == name);
            }
        }
    }
}

proof fn lemma_frame_get(entries: Seq<(String, Value)>, i: int)
    requires
        keys_unique(entries),
        0 <= i < entries.len(),
    ensures
        frame_map(entries).contains_key(entries[i].0@),
        frame_map(entries)[entries[i].0@] == entries[i].1@,
    decreases entries.len(),
{
    if i < entries.len() - 1 {
        lemma_frame_get(entries.drop_last(), i);
        assert(entries.drop_last()[i] == entries[i]);
    }
}

proof fn lemma_frame_update(entries: Seq<(String, Value)>, i: int, e: (String, Value))
    requires
        keys_unique(entries),
        0 <= i < entries.len(),
        e.0@ == entries[i].0@,
    ensures
        keys_unique(entries.update(i, e)),
        frame_map(entries.update(i, e)) == frame_map(entries).insert(e.0@, e.1@),
    decreases entries.len(),
{
    let u = entries.update(i, e);
    if i == entries.len() - 1 {
        assert(u.drop_last() =~= entries.drop_last());
        lemma_frame_contains(entries.drop_last(), e.0@);
        assert(frame_map(u) =~= frame_map(entries).insert(e.0@, e.1@));
    } else {
        lemma_frame_update(entries.drop_last(), i, e);
        assert(u.drop_last() =~= entries.drop_last().update(i, e));
        assert(entries.last().0@ != e.0@);
        assert(frame_map(u) =~= frame_map(entries).insert(e.0@, e.1@));
    }
}

pub proof fn lemma_find_frame(frames: Seq<Map<Seq<char>, ValueView>>, name: Seq<char>)
    ensures
        match find_frame(frames, name) {
            Some(j) => 0 <= j < frames.len() && frames[j].contains_key(name) && forall|k: int|
                j < k < frames.len() ==> !#[trigger] frames[k].contains_key(name),
            None => forall|k: int| 0 <= k < frames.len() ==> !#[trigger] frames[k].contains_key(name),
        },
    decreases frames.len(),
{
    if frames.len() > 0 && !frames.last().contains_key(name) {
        let rest = frames.drop_last();
        lemma_find_frame(rest, name);
        assert forall|k: int| 0 <= k < rest.len() implies frames[k] == #[trigger] rest[k] by {}
        match find_frame(rest, name) {
            Some(j) => {
                assert forall|k: int| j < k < frames.len() implies !#[trigger] frames[k].contains_key(
                    name,
                ) by {
                    if k < rest.len() {
                        assert(rest[k] == frames[k]);
                    }
                }
            },
            None => {
                assert forall|k: int| 0 <= k < frames.len() implies !#[trigger] frames[k].contains_key(
                    name,
                ) by {
                    if k < rest.len() {
                        assert(rest[k] == frames[k]);
                    }
                }
            },
        }
    }
}

pub proof fn lemma_find_frame_at(frames: Seq<Map<Seq<char>, ValueView>>, name: Seq<char>, j: int)
    requires
        0 <= j < frames.len(),
        frames[j].contains_key(name),
        forall|k: int| j < k < frames.len() ==> !#[trigger] frames[k].contains_key(name),
    ensures
        find_frame(frames, name) == Some(j),
    decreases frames.len(),
{
    if j < frames.len() - 1 {
        let rest = frames.drop_last();
        assert(!frames[frames.len() - 1].contains_key(name));
        assert forall|k: int| j < k < rest.len() implies !#[trigger] rest[k].contains_key(name) by {
            assert(rest[k] == frames[k]);
        }
        assert(rest[j] == frames[j]);
        lemma_find_frame_at(rest, name, j);
    }
}

/// A stack of scope frames; the last is the innermost.
pub struct Environment {
    /// The bindings of each frame, outermost first; `wf` asks that no name
    /// repeats within a frame.
    pub frames: Vec<Vec<(String, Value)>>,
}

impl View for Environment {
    type V = Seq<Map<Seq<char>, ValueView>>;

    open spec fn view(&self) -> Seq<Map<Seq<char>, ValueView>> {
        Seq::new(self.frames@.len(), |i: int| frame_map(self.frames@[i]@))
    }
}

/// Where `name` stands in a frame, if anywhere.
fn find_in_frame(entries: &Vec<(String, Value)>, name: &str) -> (r: Option<usize>)
    ensures
        match r {
            Some(i) => i < entries@.len() && entries@[i as int].0@ == name@,
            None => forall|i: int| 0 <= i < entries@.len() ==> #[trigger] entries@[i].0@ != name@,
        },
{
    let mut i: usize = 0;
    while i < entries.len()
        invariant
            i <= entries@.len(),
            forall|j: int| 0 <= j < i ==> #[trigger] entries@[j].0@ != name@,
        decreases entries@.len() - i,
    {
        if str_eq(entries[i].0.as_str(), name) {
            return Some(i);
        }
        i = i + 1;
    }
    None
}

impl Environment {
    /// Each frame binds each name at most once, and there is a frame.
    pub open spec fn wf(&self) -> bool {
        &&& self.frames@.len() >= 1
        &&& forall|i: int| 0 <= i < self.frames@.len() ==> keys_unique(#[trigger] self.frames@[i]@)
    }

    /// Whether `wf` holds, checked by looking.
    pub fn is_well_formed(&self) -> (r: bool)
        ensures
            r == self.wf(),
    {
        if self.frames.len() == 0 {
            return false;
        }
        let mut f: usize = 0;
        while f < self.frames.len()
            invariant
                f <= self.frames@.len(),
                forall|i: int| 0 <= i < f ==> keys_unique(#[trigger] self.frames@[i]@),
            decreases self.frames@.len() - f,
        {
            let frame = &self.frames[f];
            let mut i: usize = 0;
            while i < frame.len()
                invariant
                    f < self.frames@.len(),
                    frame == self.frames@[f as int],
                    i <= frame@.len(),
                    forall|a: int, b: int|
                        0 <= a < i && 0 <= b < frame@.len() && a != b ==> #[trigger] frame@[a].0@
                            != #[trigger] frame@[b].0@,
                decreases frame@.len() - i,
            {
                let mut j: usize = 0;
                while j < frame.len()
                    invariant
                        f < self.frames@.len(),
                        frame == self.frames@[f as int],
                        i < frame@.len(),
                        j <= frame@.len(),
                        forall|a: int, b: int|
                            0 <= a < i && 0 <= b < frame@.len() && a != b ==> #[trigger] frame@[a].0@
                                != #[trigger] frame@[b].0@,
                        forall|b: int|
                            0 <= b < j && b != i ==> frame@[i as int].0@ != #[trigger] frame@[b].0@,
                    decreases frame@.len() - j,
                {
                    if j != i && str_eq(frame[i].0.as_str(), frame[j].0.as_str()) {
                        assert(!keys_unique(self.frames@[f as int]@));
                        return false;
                    }
                    j = j + 1;
                }
                i = i + 1;
            }
            f = f + 1;
        }
        true
    }

    /// One empty frame.
    pub fn new() -> (r: Environment)
        ensures
            r.wf(),
            r@ == seq![Map::<Seq<char>, ValueView>::empty()],
    {
        let mut frames: Vec<Vec<(String, Value)>> = Vec::new();
        frames.push(Vec::new());
        let r = Environment { frames };
        assert(r@ =~= seq![Map::<Seq<char>, ValueView>::empty()]);
        r
    }

    /// `enclosing` with a new empty frame inside it.
    pub fn from_enclosing(enclosing: Environment) -> (r: Environment)
        requires
            enclosing.wf(),
        ensures
            r.wf(),
            r@ == enclosing@.push(Map::empty()),
    {
        let mut r = enclosing;
        r.enter();
        r
    }

    /// How many frames there are.
    pub fn depth(&self) -> (r: usize)
        ensures
            r == self@.len(),
    {
        self.frames.len()
    }

    /// Opens a new empty innermost frame.
    pub fn enter(&mut self)
        requires
            old(self).wf(),
        ensures
            final(self).wf(),
            final(self)@ == old(self)@.push(Map::empty()),
    {
        self.frames.push(Vec::new());
        assert(self@ =~= old(self)@.push(Map::empty()));
    }

    /// Drops frames until `depth` remain.
    pub fn leave_to(&mut self, depth: usize)
        requires
            old(self).wf(),
            1 <= depth <= old(self)@.len(),
        ensures
            final(self).wf(),
            final(self)@ == old(self)@.subrange(0, depth as int),
    {
        while self.frames.len() > depth
            invariant
                self.wf(),
                1 <= depth <= self@.len() <= old(self)@.len(),
                self@ == old(self)@.subrange(0, self@.len() as int),
            decreases self.frames@.len(),
        {
            let ghost prev = self.frames@;
            self.frames.pop();
            assert(self.frames@ =~= prev.drop_last());
            assert forall|i: int| 0 <= i < self.frames@.len() implies keys_unique(
                #[trigger] self.frames@[i]@,
            ) by {
                assert(self.frames@[i] == prev[i]);
            }
            assert(self@ =~= old(self)@.subrange(0, self@.len() as int));
        }
    }

    /// Binds `name` to `value` in the innermost frame.
    pub fn define(&mut self, name: &str, value: Value)
        requires
            old(self).wf(),
        ensures
            final(self).wf(),
            final(self)@ == define_in(old(self)@, name@, value@),
    {
        let last = self.frames.len() - 1;
        let mut frame = self.frames.pop().unwrap();
        let ghost entries = frame@;
        assert(entries == old(self).frames@[last as int]@);
        match find_in_frame(&frame, name) {
            Some(i) => {
                let e = (name.to_owned(), value);
                proof {
                    lemma_frame_update(entries, i as int, e);
                }
                frame.set(i, e);
            },
            None => {
                let e = (name.to_owned(), value);
                frame.push(e);
                assert(frame@.drop_last() =~= entries);
                assert(keys_unique(frame@));
            },
        }
        self.frames.push(frame);
        assert(self@ =~= define_in(old(self)@, name@, value@));
    }

    /// Assigns `value` to `name` in the innermost frame that binds it.
    pub fn assign(&mut self, name: &str, value: Value) -> (r: Result<(), ExecError>)
        requires
            old(self).wf(),
        ensures
            final(self).wf(),
            final(self)@.len() == old(self)@.len(),
            match assign_in(old(self)@, name@, value@) {
                Some(frames) => r is Ok && final(self)@ == frames,
                None => r is Err && r->Err_0@ == ErrorView::UndefinedVariable(name@) && final(self)@
                    == old(self)@,
            },
    {
        let ghost frames = self@;
        proof {
            lemma_find_frame(frames, name@);
        }
        let mut j: usize = self.frames.len();
        while j > 0
            invariant
                *self == *old(self),
                old(self).wf(),
                frames == self@,
                j <= self.frames@.len(),
                forall|k: int| j <= k < frames.len() ==> !#[trigger] frames[k].contains_key(name@),
            decreases j,
        {
            j = j - 1;
            let found = find_in_frame(&self.frames[j], name);
            proof {
                lemma_frame_contains(self.frames@[j as int]@, name@);
            }
            if let Some(i) = found {
                assert(frames[j as int].contains_key(name@));
                proof {
                    lemma_find_frame_at(frames, name@, j as int);
                }
                assert(keys_unique(self.frames@[j as int]@));
                let mut frame = self.frames.remove(j);
                let ghost entries = frame@;
                let e = (name.to_owned(), value);
                proof {
                    lemma_frame_update(entries, i as int, e);
                }
                frame.set(i, e);
                let ghost prev = self.frames@;
                self.frames.insert(j, frame);
                assert(self.frames@ =~= old(self).frames@.update(j as int, frame));
                assert forall|k: int| 0 <= k < self.frames@.len() implies keys_unique(
                    #[trigger] self.frames@[k]@,
                ) by {
                    if k != j {
                        assert(self.frames@[k] == old(self).frames@[k]);
                    }
                }
                assert(self@ =~= frames.update(j as int, frames[j as int].insert(name@, value@)));
                return Ok(());
            }
        }
        assert(find_frame(frames, name@) is None);
        Err(ExecError::UndefinedVariable(name.to_owned()))
    }

    /// What `name` resolves to, searching outward from the innermost frame.
    pub fn get(&self, name: &str) -> (r: Option<Value>)
        requires
            self.wf(),
        ensures
            match lookup(self@, name@) {
                Some(v) => r is Some && r->Some_0@ == v,
                None => r is None,
            },
    {
        let ghost frames = self@;
        proof {
            lemma_find_frame(frames, name@);
        }
        let mut j: usize = self.frames.len();
        while j > 0
            invariant
                frames == self@,
                self.wf(),
                j <= self.frames@.len(),
                forall|k: int| j <= k < frames.len() ==> !#[trigger] frames[k].contains_key(name@),
            decreases j,
        {
            j = j - 1;
            let found = find_in_frame(&self.frames[j], name);
            proof {
                lemma_frame_contains(self.frames@[j as int]@, name@);
            }
            if let Some(i) = found {
                assert(frames[j as int].contains_key(name@));
                proof {
                    lemma_find_frame_at(frames, name@, j as int);
                }
                proof {
                    lemma_frame_get(self.frames@[j as int]@, i as int);
                }
                return Some(self.frames[j][i].1.duplicate());
            }
        }
        assert(find_frame(frames, name@) is None);
        None
    }

    /// Binds `name` to a natively implemented function with the given
    /// parameters, run by the host under the key `name`.
    pub fn add_rust_function(&mut self, name: &str, args: Vec<String>)
        requires
            old(self).wf(),
        ensures
            final(self).wf(),
            final(self)@ == define_in(
                old(self)@,
                name@,
                ValueView::Native { params: names_view(args@), key: name@ },
            ),
    {
        let key = name.to_owned();
        self.define(name, Value::RustFunction { args, body: key });
    }
}

} // verus!
