//! The scope chain of the emitter: which slot a variable lives in, and
//! which function of the module a name calls.
use vstd::prelude::*;
use crate::compiler::ir::IrType;
use crate::text::str_eq;

verus! {

/// The slot of a variable: the instruction that reserved it, and the type
/// of the value that it holds.
#[derive(Debug, Clone, Copy, PartialEq, Eq, Hash, Structural)]
pub struct Slot {
    pub id: usize,
    pub ty: IrType,
}

/// One level of the emitter's scope chain. Of several entries of one name
/// the last one counts.
pub ghost struct EmitFrame {
    pub variables: Seq<(Seq<char>, Slot)>,
    pub functions: Seq<(Seq<char>, usize)>,
}

/// The entry made last under a name in a list of entries.
pub open spec fn last_entry<T>(entries: Seq<(Seq<char>, T)>, name: Seq<char>) -> Option<T>
    decreases entries.len(),
{
    if entries.len() == 0 {
        None
    } else if entries.last().0 == name {
        Some(entries.last().1)
    } else {
        last_entry(entries.drop_last(), name)
    }
}

/// The slot that a name resolves to in a chain, innermost frame first.
pub open spec fn find_slot(frames: Seq<EmitFrame>, name: Seq<char>) -> Option<Slot>
    decreases frames.len(),
{
    if frames.len() == 0 {
        None
    } else {
        match last_entry(frames[0].variables, name) {
            Some(s) => Some(s),
            None => find_slot(frames.drop_first(), name),
        }
    }
}

/// The function that a name resolves to in a chain, innermost frame first.
pub open spec fn find_function(frames: Seq<EmitFrame>, name: Seq<char>) -> Option<usize>
    decreases frames.len(),
{
    if frames.len() == 0 {
        None
    } else {
        match last_entry(frames[0].functions, name) {
            Some(f) => Some(f),
            None => find_function(frames.drop_first(), name),
        }
    }
}

/// A chain after a variable is bound in its innermost frame.
pub open spec fn bind_slot(frames: Seq<EmitFrame>, name: Seq<char>, slot: Slot) -> Seq<EmitFrame> {
    frames.update(
        0,
        EmitFrame { variables: frames[0].variables.push((name, slot)), ..frames[0] },
    )
}

/// A chain after a function is bound in its innermost frame.
pub open spec fn bind_function(frames: Seq<EmitFrame>, name: Seq<char>, function: usize) -> Seq<
    EmitFrame,
> {
    frames.update(
        0,
        EmitFrame { functions: frames[0].functions.push((name, function)), ..frames[0] },
    )
}

/// An empty frame.
pub open spec fn empty_frame() -> EmitFrame {
    EmitFrame { variables: Seq::empty(), functions: Seq::empty() }
}

/// The entries that a list of stored entries stands for.
pub open spec fn entries_view<T>(v: Seq<(String, T)>) -> Seq<(Seq<char>, T)> {
    Seq::new(v.len(), |i: int| (v[i].0@, v[i].1))
}

/// A frame of the emitter's scope chain, with the frames that enclose it.
#[derive(Debug)]
pub struct Scope {
    parent: Option<Box<Scope>>,
    variables: Vec<(String, Slot)>,
    functions: Vec<(String, usize)>,
}

/// The frames of an optional enclosing scope; none where there is none.
pub open spec fn parent_frames(parent: Option<Box<Scope>>) -> Seq<EmitFrame> {
    match parent {
        Some(p) => p@,
        None => Seq::empty(),
    }
}

impl Scope {
    /// The frames of the chain, this one first and the root last.
    pub closed spec fn frames(&self) -> Seq<EmitFrame>
        decreases self,
    {
        seq![
            EmitFrame {
                variables: entries_view(self.variables@),
                functions: entries_view(self.functions@),
            },
        ] + match self.parent {
            Some(p) => p.frames(),
            None => Seq::empty(),
        }
    }
}

impl View for Scope {
    type V = Seq<EmitFrame>;

    open spec fn view(&self) -> Seq<EmitFrame> {
        self.frames()
    }
}

/// A chain has at least one frame.
pub broadcast proof fn lemma_scope_has_frame(s: &Scope)
    ensures
        #[trigger] s.frames().len() >= 1,
{
}

fn find_last<T: Copy>(entries: &Vec<(String, T)>, name: &str) -> (r: Option<T>)
    ensures
        r == last_entry(entries_view(entries@), name@),
{
    let ghost all = entries_view(entries@);
    let mut i: usize = entries.len();
    assert(all.take(i as int) =~= all);
    while i > 0
        invariant
            i <= entries.len(),
            all == entries_view(entries@),
            last_entry(all, name@) == last_entry(all.take(i as int), name@),
        decreases i,
    {
        assert(all.take(i as int).drop_last() =~= all.take(i as int - 1));
        if str_eq(entries[i - 1].0.as_str(), name) {
            return Some(entries[i - 1].1);
        }
        i = i - 1;
    }
    None
}

impl Scope {
    /// A chain made of one empty frame in front of the frames of `parent`.
    pub fn new(parent: Option<Box<Scope>>) -> (r: Self)
        ensures
            r@ == seq![empty_frame()] + parent_frames(parent),
    {
        let r = Scope { parent, variables: Vec::new(), functions: Vec::new() };
        assert(entries_view(r.variables@) =~= Seq::<(Seq<char>, Slot)>::empty());
        assert(entries_view(r.functions@) =~= Seq::<(Seq<char>, usize)>::empty());
        r
    }

    /// Binds a variable to a slot in the innermost frame.
    pub fn set_variable(&mut self, id: &str, slot: Slot)
        ensures
            final(self)@ == bind_slot(old(self)@, id@, slot),
    {
        let ghost before = entries_view(self.variables@);
        self.variables.push((id.to_owned(), slot));
        assert(entries_view(self.variables@) =~= before.push((id@, slot)));
        assert(self@ =~= bind_slot(old(self)@, id@, slot));
    }

    /// The slot of a variable: that of the innermost frame that binds the
    /// name.
    pub fn get_variable(&self, id: &str) -> (r: Option<Slot>)
        ensures
            r == find_slot(self@, id@),
        decreases self,
    {
        assert(self@[0].variables == entries_view(self.variables@));
        assert(find_slot(Seq::<EmitFrame>::empty(), id@) is None);
        match find_last(&self.variables, id) {
            Some(s) => Some(s),
            None => match &self.parent {
                Some(p) => {
                    assert(self@.drop_first() =~= p@);
                    p.get_variable(id)
                },
                None => {
                    assert(self@.drop_first() =~= Seq::<EmitFrame>::empty());
                    None
                },
            },
        }
    }

    /// Binds a name to a function of the module in the innermost frame.
    pub fn set_function(&mut self, id: &str, function: usize)
        ensures
            final(self)@ == bind_function(old(self)@, id@, function),
    {
        let ghost before = entries_view(self.functions@);
        self.functions.push((id.to_owned(), function));
        assert(entries_view(self.functions@) =~= before.push((id@, function)));
        assert(self@ =~= bind_function(old(self)@, id@, function));
    }

    /// The function that a name calls: that of the innermost frame that
    /// binds the name.
    pub fn get_function(&self, id: &str) -> (r: Option<usize>)
        ensures
            r == find_function(self@, id@),
        decreases self,
    {
        assert(self@[0].functions == entries_view(self.functions@));
        assert(find_function(Seq::<EmitFrame>::empty(), id@) is None);
        match find_last(&self.functions, id) {
            Some(f) => Some(f),
            None => match &self.parent {
                Some(p) => {
                    assert(self@.drop_first() =~= p@);
                    p.get_function(id)
                },
                None => {
                    assert(self@.drop_first() =~= Seq::<EmitFrame>::empty());
                    None
                },
            },
        }
    }

    /// The chain with a new, empty innermost frame.
    pub fn enter(self) -> (r: Scope)
        ensures
            r@ == seq![empty_frame()] + self@,
    {
        Scope::new(Some(Box::new(self)))
    }

    /// The chain without its innermost frame. The root frame is never
    /// dropped: a chain of one frame is returned as it is.
    pub fn exit(self) -> (r: Scope)
        ensures
            r@ == if self@.len() > 1 {
                self@.drop_first()
            } else {
                self@
            },
    {
        let ghost frames = self@;
        let Scope { parent, variables, functions } = self;
        match parent {
            Some(p) => {
                assert(frames.drop_first() =~= p@);
                *p
            },
            None => {
                let r = Scope { parent: None, variables, functions };
                assert(r@ =~= frames);
                r
            },
        }
    }
}

} // verus!
