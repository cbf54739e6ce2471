//! The chain of scope frames that analysis keeps while it walks the tree.
use vstd::prelude::*;
use crate::text::str_eq;
use crate::types::{DataType, DataTypeView};

verus! {

/// A variable that a scope binds.
#[derive(Debug, PartialEq, Eq, Hash)]
pub struct Variable {
    pub name: String,
    pub data_type: DataType,
    pub mutable: bool,
    pub used: bool,
    pub initialized: bool,
}

/// The signature under which a function is known to analysis.
#[derive(Debug, PartialEq, Eq, Hash)]
pub struct Function {
    pub return_type: DataType,
    pub params: Vec<DataType>,
}

/// The mathematical value of a [`Variable`].
pub ghost struct VariableView {
    pub name: Seq<char>,
    pub data_type: DataTypeView,
    pub mutable: bool,
    pub used: bool,
    pub initialized: bool,
}

/// The mathematical value of a [`Function`].
pub ghost struct FunctionView {
    pub return_type: DataTypeView,
    pub params: Seq<DataTypeView>,
}

/// An identifier and the variable that a frame binds it to.
pub type Binding = (Seq<char>, VariableView);

/// One level of the scope chain: its bindings in the order in which they
/// were first made.
pub type Frame = Seq<Binding>;

impl View for Variable {
    type V = VariableView;

    open spec fn view(&self) -> VariableView {
        VariableView {
            name: self.name@,
            data_type: self.data_type@,
            mutable: self.mutable,
            used: self.used,
            initialized: self.initialized,
        }
    }
}

/// The values of a list of types, in order.
pub open spec fn types_view(v: Seq<DataType>) -> Seq<DataTypeView> {
    Seq::new(v.len(), |i: int| v[i]@)
}

impl View for Function {
    type V = FunctionView;

    open spec fn view(&self) -> FunctionView {
        FunctionView { return_type: self.return_type@, params: types_view(self.params@) }
    }
}

impl Clone for Variable {
    fn clone(&self) -> (r: Self)
        ensures
            r == *self,
    {
        Variable {
            name: self.name.clone(),
            data_type: self.data_type.clone(),
            mutable: self.mutable,
            used: self.used,
            initialized: self.initialized,
        }
    }
}

impl Clone for Function {
    fn clone(&self) -> (r: Self)
        ensures
            r@ == self@,
    {
        let mut params: Vec<DataType> = Vec::new();
        let mut i: usize = 0;
        while i < self.params.len()
            invariant
                i <= self.params.len(),
                params.len() == i,
                forall|j: int| 0 <= j < i ==> params[j] == self.params[j],
            decreases self.params.len() - i,
        {
            params.push(self.params[i].clone());
            i = i + 1;
        }
        let r = Function { return_type: self.return_type.clone(), params };
        assert(r@.params =~= self@.params);
        r
    }
}

/// The values of a list of variables, in order.
pub open spec fn variables_view(v: Seq<Variable>) -> Seq<VariableView> {
    Seq::new(v.len(), |i: int| v[i]@)
}

/// The frame that a list of stored bindings stands for.
pub open spec fn bindings_view(v: Seq<(String, Variable)>) -> Frame {
    Seq::new(v.len(), |i: int| (v[i].0@, v[i].1@))
}

/// The position at or after `from` of the first binding of `name` in a
/// frame, if there is one.
pub open spec fn find_from(frame: Frame, name: Seq<char>, from: int) -> Option<int>
    decreases frame.len() - from,
{
    if from < 0 || from >= frame.len() {
        None
    } else if frame[from].0 == name {
        Some(from)
    } else {
        find_from(frame, name, from + 1)
    }
}

/// The position of the binding of `name` in a frame, if there is one.
pub open spec fn frame_find(frame: Frame, name: Seq<char>) -> Option<int> {
    find_from(frame, name, 0)
}

/// A frame after `name` is bound to `variable`: a binding of that name is
/// replaced where it stands, a new name is added at the end.
pub open spec fn frame_set(frame: Frame, name: Seq<char>, variable: VariableView) -> Frame {
    match frame_find(frame, name) {
        Some(i) => frame.update(i, (name, variable)),
        None => frame.push((name, variable)),
    }
}

/// The variable that `name` resolves to in a chain of frames, innermost
/// frame first.
pub open spec fn lookup(frames: Seq<Frame>, name: Seq<char>) -> Option<VariableView>
    decreases frames.len(),
{
    if frames.len() == 0 {
        None
    } else {
        match frame_find(frames[0], name) {
            Some(i) => Some(frames[0][i].1),
            None => lookup(frames.drop_first(), name),
        }
    }
}

/// A variable once it has been read.
pub open spec fn used_variable(v: VariableView) -> VariableView {
    VariableView { used: true, ..v }
}

/// The chain after the variable that `name` resolves to is marked as used.
/// A chain that does not bind the name stays as it is.
pub open spec fn mark_used(frames: Seq<Frame>, name: Seq<char>) -> Seq<Frame>
    decreases frames.len(),
{
    if frames.len() == 0 {
        frames
    } else {
        match frame_find(frames[0], name) {
            Some(i) => frames.update(
                0,
                frames[0].update(i, (frames[0][i].0, used_variable(frames[0][i].1))),
            ),
            None => seq![frames[0]] + mark_used(frames.drop_first(), name),
        }
    }
}

/// The chain after the variable that `name` resolves to is replaced by
/// another. A chain that does not bind the name stays as it is.
pub open spec fn replace_variable(frames: Seq<Frame>, name: Seq<char>, v: VariableView) -> Seq<
    Frame,
>
    decreases frames.len(),
{
    if frames.len() == 0 {
        frames
    } else {
        match frame_find(frames[0], name) {
            Some(i) => seq![frames[0].update(i, (frames[0][i].0, v))] + frames.drop_first(),
            None => seq![frames[0]] + replace_variable(frames.drop_first(), name, v),
        }
    }
}

/// The variables of a frame that were never read, in the frame's order.
pub open spec fn unused_in_frame(frame: Frame) -> Seq<VariableView>
    decreases frame.len(),
{
    if frame.len() == 0 {
        Seq::empty()
    } else if frame.last().1.used {
        unused_in_frame(frame.drop_last())
    } else {
        unused_in_frame(frame.drop_last()).push(frame.last().1)
    }
}

/// The variables of a chain that were never read: those of the innermost
/// frame first, then those of each enclosing frame.
pub open spec fn unused(frames: Seq<Frame>) -> Seq<VariableView>
    decreases frames.len(),
{
    if frames.len() == 0 {
        Seq::empty()
    } else {
        unused_in_frame(frames[0]) + unused(frames.drop_first())
    }
}

/// A frame of the scope chain, with the frames that enclose it.
#[derive(Debug)]
pub struct Scope {
    parent: Option<Box<Scope>>,
    variables: Vec<(String, Variable)>,
}

/// The frames of an optional enclosing scope; none where there is no scope.
pub open spec fn parent_frames(parent: Option<Box<Scope>>) -> Seq<Frame> {
    match parent {
        Some(p) => p@,
        None => Seq::empty(),
    }
}

impl Scope {
    /// The frames of the chain, this one first and the root last.
    pub closed spec fn frames(&self) -> Seq<Frame>
        decreases self,
    {
        seq![bindings_view(self.variables@)] + match self.parent {
            Some(p) => p.frames(),
            None => Seq::empty(),
        }
    }
}

impl View for Scope {
    type V = Seq<Frame>;

    open spec fn view(&self) -> Seq<Frame> {
        self.frames()
    }
}

proof fn lemma_bindings_update(v: Seq<(String, Variable)>, i: int, x: Variable)
    requires
        0 <= i < v.len(),
    ensures
        bindings_view(v.update(i, (v[i].0, x))) == bindings_view(v).update(
            i,
            (bindings_view(v)[i].0, x@),
        ),
{
    assert(bindings_view(v.update(i, (v[i].0, x))) =~= bindings_view(v).update(
        i,
        (bindings_view(v)[i].0, x@),
    ));
}

proof fn lemma_chain_parts(first: Frame, rest: Seq<Frame>)
    ensures
        (seq![first] + rest).drop_first() == rest,
        (seq![first] + rest)[0] == first,
{
    assert((seq![first] + rest).drop_first() =~= rest);
}

/// A chain has at least one frame.
pub broadcast proof fn lemma_scope_has_frame(s: &Scope)
    ensures
        #[trigger] s.frames().len() >= 1,
{
}

fn find_binding(variables: &Vec<(String, Variable)>, name: &str) -> (r: Option<usize>)
    ensures
        match r {
            Some(i) => frame_find(bindings_view(variables@), name@) == Some(i as int) && i
                < variables.len(),
            None => frame_find(bindings_view(variables@), name@) is None,
        },
{
    let ghost frame = bindings_view(variables@);
    let mut i: usize = 0;
    while i < variables.len()
        invariant
            i <= variables.len(),
            frame == bindings_view(variables@),
            frame_find(frame, name@) == find_from(frame, name@, i as int),
        decreases variables.len() - i,
    {
        if str_eq(variables[i].0.as_str(), name) {
            return Some(i);
        }
        i = i + 1;
    }
    None
}

impl Scope {
    /// A chain made of one empty frame in front of the frames of `parent`.
    pub fn new(parent: Option<Box<Scope>>) -> (r: Self)
        ensures
            r@ == seq![Seq::<Binding>::empty()] + parent_frames(parent),
    {
        let r = Scope { parent, variables: Vec::new() };
        assert(bindings_view(r.variables@) =~= Seq::<Binding>::empty());
        r
    }

    /// Binds `name` to `variable` in the innermost frame. A binding of the
    /// same name in that frame is replaced; those of enclosing frames stay,
    /// shadowed.
    pub fn set_variable(&mut self, name: String, variable: Variable)
        ensures
            final(self)@ == old(self)@.update(0, frame_set(old(self)@[0], name@, variable@)),
    {
        let ghost frame = bindings_view(self.variables@);
        let found = find_binding(&self.variables, name.as_str());
        match found {
            Some(i) => {
                self.variables.set(i, (name, variable));
                assert(bindings_view(self.variables@) =~= frame.update(
                    i as int,
                    (name@, variable@),
                ));
            },
            None => {
                self.variables.push((name, variable));
                assert(bindings_view(self.variables@) =~= frame.push((name@, variable@)));
            },
        }
        assert(self@ =~= old(self)@.update(0, frame_set(old(self)@[0], name@, variable@)));
    }

    /// The variable that `name` resolves to: the binding of the innermost
    /// frame that has one.
    pub fn get_variable(&self, name: &String) -> (r: Option<Variable>)
        ensures
            match r {
                Some(v) => lookup(self@, name@) == Some(v@),
                None => lookup(self@, name@) is None,
            },
        decreases self,
    {
        let found = find_binding(&self.variables, name.as_str());
        assert(self@[0] == bindings_view(self.variables@));
        match found {
            Some(i) => Some(self.variables[i].1.clone()),
            None => {
                match &self.parent {
                    Some(p) => {
                        assert(self@.drop_first() =~= p@);
                        p.get_variable(name)
                    },
                    None => {
                        assert(self@.drop_first() =~= Seq::<Frame>::empty());
                        None
                    },
                }
            },
        }
    }

    /// The variable that `name` resolves to, to be changed in place. What
    /// the caller leaves in it is what the chain binds the name to
    /// afterwards.
    pub fn get_mut_variable(&mut self, name: &String) -> (r: Option<&mut Variable>)
        ensures
            match r {
                Some(v) => lookup(old(self)@, name@) == Some(v@) && final(self)@
                    == replace_variable(old(self)@, name@, final(v)@),
                None => lookup(old(self)@, name@) is None && final(self)@ == old(self)@,
            },
        decreases old(self)@.len(),
    {
        let found = find_binding(&self.variables, name.as_str());
        proof {
            lemma_chain_parts(bindings_view(self.variables@), self@.drop_first());
            assert(self@ =~= seq![bindings_view(self.variables@)] + self@.drop_first());
            assert(lookup(Seq::<Frame>::empty(), name@) is None);
            assert forall|x: Variable, i: int| 0 <= i < self.variables@.len() implies #[trigger] bindings_view(
                self.variables@.update(i, (self.variables@[i].0, x)),
            ) == bindings_view(self.variables@).update(
                i,
                (bindings_view(self.variables@)[i].0, x@),
            ) by {
                lemma_bindings_update(self.variables@, i, x);
            }
            assert forall|tail: Seq<Frame>| #[trigger] (seq![bindings_view(self.variables@)] + tail).drop_first()
                == tail by {
                lemma_chain_parts(bindings_view(self.variables@), tail);
            }
        }
        match found {
            Some(i) => Some(&mut self.variables[i].1),
            None => match &mut self.parent {
                Some(p) => p.get_mut_variable(name),
                None => None,
            },
        }
    }

    /// Marks the variable that `name` resolves to as used and returns its
    /// type; `None`, and no change, where no frame binds the name.
    pub fn mark_used(&mut self, name: &String) -> (r: Option<DataType>)
        ensures
            final(self)@ == mark_used(old(self)@, name@),
            match r {
                Some(t) => lookup(old(self)@, name@) is Some && lookup(old(self)@, name@).unwrap().data_type
                    == t@,
                None => lookup(old(self)@, name@) is None && final(self)@ == old(self)@,
            },
        decreases old(self)@.len(),
    {
        let ghost frame = bindings_view(self.variables@);
        let found = find_binding(&self.variables, name.as_str());
        assert(self@[0] == frame);
        match found {
            Some(i) => {
                let mut v = self.variables[i].1.clone();
                let key = self.variables[i].0.clone();
                let t = v.data_type.clone();
                v.used = true;
                self.variables.set(i, (key, v));
                assert(bindings_view(self.variables@) =~= frame.update(
                    i as int,
                    (frame[i as int].0, used_variable(frame[i as int].1)),
                ));
                assert(self@ =~= mark_used(old(self)@, name@));
                Some(t)
            },
            None => {
                let mut parent = self.parent.take();
                match parent {
                    Some(mut p) => {
                        assert(old(self)@.drop_first() =~= p@);
                        let r = p.mark_used(name);
                        self.parent = Some(p);
                        assert(self@ =~= mark_used(old(self)@, name@));
                        assert(r is None ==> self@ =~= old(self)@);
                        r
                    },
                    None => {
                        assert(old(self)@.drop_first() =~= Seq::<Frame>::empty());
                        assert(mark_used(Seq::<Frame>::empty(), name@) =~= Seq::<Frame>::empty());
                        assert(lookup(Seq::<Frame>::empty(), name@) is None);
                        assert(self@ =~= mark_used(old(self)@, name@));
                        assert(self@ =~= old(self)@);
                        None
                    },
                }
            },
        }
    }

    /// The variables of the chain that were never read, innermost frame
    /// first, each frame in the order of its bindings.
    pub fn get_unused_variables(&self) -> (r: Vec<Variable>)
        ensures
            variables_view(r@) == unused(self@),
        decreases self,
    {
        let ghost frame = bindings_view(self.variables@);
        let mut out: Vec<Variable> = Vec::new();
        let mut i: usize = 0;
        assert(frame.take(0) =~= Seq::<Binding>::empty());
        while i < self.variables.len()
            invariant
                i <= self.variables.len(),
                frame == bindings_view(self.variables@),
                variables_view(out@) =~= unused_in_frame(frame.take(i as int)),
            decreases self.variables.len() - i,
        {
            assert(frame.take(i as int + 1).drop_last() =~= frame.take(i as int));
            if !self.variables[i].1.used {
                out.push(self.variables[i].1.clone());
            }
            i = i + 1;
        }
        assert(frame.take(i as int) =~= frame);
        match &self.parent {
            Some(p) => {
                let mut rest = p.get_unused_variables();
                assert(self@.drop_first() =~= p@);
                let ghost before = out@;
                let ghost more = rest@;
                out.append(&mut rest);
                assert(variables_view(out@) =~= variables_view(before) + variables_view(more));
            },
            None => {
                assert(self@.drop_first() =~= Seq::<Frame>::empty());
                assert(unused(self@.drop_first()) =~= Seq::<VariableView>::empty());
            },
        }
        out
    }

    /// The chain with a new, empty innermost frame.
    pub fn enter(self) -> (r: Scope)
        ensures
            r@ == seq![Seq::<Binding>::empty()] + self@,
    {
        Scope::new(Some(Box::new(self)))
    }

    /// The chain without its innermost frame. The root frame is never
    /// dropped: a chain of one frame is returned as it is.
    pub fn exit(self) -> (r: Scope)
        ensures
            r@ == if self@.len() > 1 {
                self@.drop_first()
            } else {
                self@
            },
    {
        let ghost frames = self@;
        let Scope { parent, variables } = self;
        match parent {
            Some(p) => {
                assert(frames.drop_first() =~= p@);
                *p
            },
            None => {
                let r = Scope { parent: None, variables };
                assert(r@ =~= frames);
                r
            },
        }
    }

    /// The variables of the innermost frame that were never read.
    pub fn unused_in_innermost(&self) -> (r: Vec<Variable>)
        ensures
            variables_view(r@) == unused_in_frame(self@[0]),
    {
        let ghost frame = bindings_view(self.variables@);
        let mut out: Vec<Variable> = Vec::new();
        let mut i: usize = 0;
        assert(frame.take(0) =~= Seq::<Binding>::empty());
        while i < self.variables.len()
            invariant
                i <= self.variables.len(),
                frame == bindings_view(self.variables@),
                variables_view(out@) =~= unused_in_frame(frame.take(i as int)),
            decreases self.variables.len() - i,
        {
            assert(frame.take(i as int + 1).drop_last() =~= frame.take(i as int));
            if !self.variables[i].1.used {
                out.push(self.variables[i].1.clone());
            }
            i = i + 1;
        }
        assert(frame.take(i as int) =~= frame);
        out
    }
}

} // verus!
