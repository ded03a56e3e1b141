//! Lexical scope: a tree of frames, each a mapping from names to values.
//!
//! A [`Scope`] owns every frame of one interpreter session. A frame is named
//! by its number; the global frame is number [`GLOBAL`]. Frames are never
//! removed, so the number of a frame that a closure captured stays good for
//! as long as the scope lives.

use crate::float::PI;
use crate::parser::{trees, Expr, ExprView};
use crate::tokenizer::{Token, TokenView};
use crate::value::{
    clone_values, models, texts, BuiltIn, Primitive, Procedure, ProcedureView, Value, ValueView,
};
use vstd::prelude::*;

verus! {

/// The number of the global frame.
pub const GLOBAL: usize = 0;

/// The mathematical value of one frame.
pub struct FrameView {
    /// What the frame binds.
    pub vars: Map<Seq<char>, ValueView>,
    /// The frame around it, if any.
    pub outer: Option<nat>,
}

/// The mathematical value of a [`Scope`].
pub struct ScopeView {
    /// The frames, by number.
    pub frames: Seq<FrameView>,
    /// The values displayed so far, oldest first.
    pub output: Seq<ValueView>,
    /// The files that the host has handed in, by name.
    pub files: Map<Seq<char>, Seq<char>>,
    /// The name of the file that the last failed read asked for.
    pub missing: Option<Seq<char>>,
}

impl ScopeView {
    /// Whether `frame` is the number of a frame.
    pub open spec fn has_frame(self, frame: nat) -> bool {
        frame < self.frames.len()
    }

    /// The frame around `frame`. A link that does not point to an older
    /// frame counts as none.
    pub open spec fn parent(self, frame: nat) -> Option<nat> {
        if self.has_frame(frame) {
            match self.frames[frame as int].outer {
                Some(p) => if p < frame {
                    Some(p)
                } else {
                    None
                },
                None => None,
            }
        } else {
            None
        }
    }

    /// The nearest frame, going from `frame` outward, that binds `name`.
    pub open spec fn holder(self, frame: nat, name: Seq<char>) -> Option<nat>
        decreases frame,
    {
        if !self.has_frame(frame) {
            None
        } else if self.frames[frame as int].vars.contains_key(name) {
            Some(frame)
        } else {
            match self.parent(frame) {
                Some(p) => self.holder(p, name),
                None => None,
            }
        }
    }

    /// What `name` means in `frame`: its binding in the nearest frame that
    /// has one.
    pub open spec fn lookup(self, frame: nat, name: Seq<char>) -> Option<ValueView> {
        match self.holder(frame, name) {
            Some(h) => Some(self.frames[h as int].vars[name]),
            None => None,
        }
    }

    /// The scope after `name` is bound to `value` in `frame` itself.
    pub open spec fn defined(self, frame: nat, name: Seq<char>, value: ValueView) -> ScopeView {
        if self.has_frame(frame) {
            let old_frame = self.frames[frame as int];
            ScopeView {
                frames: self.frames.update(
                    frame as int,
                    FrameView { vars: old_frame.vars.insert(name, value), outer: old_frame.outer },
                ),
                output: self.output,
                files: self.files,
                missing: self.missing,
            }
        } else {
            self
        }
    }

    /// The scope after `name` is rebound in the nearest frame that binds it,
    /// or `None` where no frame from `frame` outward does.
    pub open spec fn assigned(self, frame: nat, name: Seq<char>, value: ValueView) -> Option<
        ScopeView,
    > {
        match self.holder(frame, name) {
            Some(h) => Some(self.defined(h, name, value)),
            None => None,
        }
    }

    /// The scope with one more frame, empty, inside `parent`. Its number is
    /// the old number of frames.
    pub open spec fn nested(self, parent: nat) -> ScopeView {
        ScopeView {
            frames: self.frames.push(
                FrameView {
                    vars: Map::empty(),
                    outer: if self.has_frame(parent) {
                        Some(parent)
                    } else {
                        None
                    },
                },
            ),
            output: self.output,
            files: self.files,
            missing: self.missing,
        }
    }

    /// The scope after `value` was displayed.
    pub open spec fn displayed(self, value: ValueView) -> ScopeView {
        ScopeView {
            frames: self.frames,
            output: self.output.push(value),
            files: self.files,
            missing: self.missing,
        }
    }

    /// The scope after a read asked for the file `name` in vain.
    pub open spec fn missed(self, name: Seq<char>) -> ScopeView {
        ScopeView {
            frames: self.frames,
            output: self.output,
            files: self.files,
            missing: Some(name),
        }
    }
}

/// The symbol `name` as an expression.
pub open spec fn sym(name: Seq<char>) -> ExprView {
    ExprView::Token(TokenView::Symbol(name))
}

/// The body of `make-generator`:
/// `(begin (define val start) (lambda () (begin (define result val) (set! val (+ val step)) result)))`.
pub open spec fn generator_body() -> ExprView {
    ExprView::List(
        seq![
            ExprView::Token(TokenView::Begin),
            ExprView::List(seq![ExprView::Token(TokenView::Define), sym("val"@), sym("start"@)]),
            ExprView::List(
                seq![
                    ExprView::Token(TokenView::Lambda),
                    ExprView::List(seq![]),
                    ExprView::List(
                        seq![
                            ExprView::Token(TokenView::Begin),
                            ExprView::List(
                                seq![
                                    ExprView::Token(TokenView::Define),
                                    sym("result"@),
                                    sym("val"@),
                                ],
                            ),
                            ExprView::List(
                                seq![
                                    ExprView::Token(TokenView::Assign),
                                    sym("val"@),
                                    ExprView::List(seq![sym("+"@), sym("val"@), sym("step"@)]),
                                ],
                            ),
                            sym("result"@),
                        ],
                    ),
                ],
            ),
        ],
    )
}

/// What the global frame binds at the start: the native procedures, the
/// number π, and `make-generator`, a procedure of a start and a step that
/// gives a procedure which counts on from the start by the step.
pub open spec fn global_bindings() -> Map<Seq<char>, ValueView> {
    Map::<Seq<char>, ValueView>::empty()
        .insert("+"@, ValueView::BuiltIn(Primitive::Add))
        .insert("-"@, ValueView::BuiltIn(Primitive::Sub))
        .insert("*"@, ValueView::BuiltIn(Primitive::Mul))
        .insert("/"@, ValueView::BuiltIn(Primitive::Div))
        .insert("and"@, ValueView::BuiltIn(Primitive::And))
        .insert("or"@, ValueView::BuiltIn(Primitive::Or))
        .insert("not"@, ValueView::BuiltIn(Primitive::Not))
        .insert("mod"@, ValueView::BuiltIn(Primitive::Modulo))
        .insert("="@, ValueView::BuiltIn(Primitive::Equal))
        .insert("<="@, ValueView::BuiltIn(Primitive::LessEq))
        .insert("<"@, ValueView::BuiltIn(Primitive::Less))
        .insert(">="@, ValueView::BuiltIn(Primitive::GreaterEq))
        .insert(">"@, ValueView::BuiltIn(Primitive::Greater))
        .insert("list"@, ValueView::BuiltIn(Primitive::List))
        .insert("string-concatenate"@, ValueView::BuiltIn(Primitive::StringConcat))
        .insert("display"@, ValueView::BuiltIn(Primitive::Display))
        .insert("map"@, ValueView::BuiltIn(Primitive::MapList))
        .insert("apply"@, ValueView::BuiltIn(Primitive::Apply))
        .insert("read-file"@, ValueView::BuiltIn(Primitive::ReadFile))
        .insert("split-string"@, ValueView::BuiltIn(Primitive::SplitString))
        .insert("substring"@, ValueView::BuiltIn(Primitive::Substring))
        .insert("string->int"@, ValueView::BuiltIn(Primitive::ParseInt))
        .insert("parse-int"@, ValueView::BuiltIn(Primitive::ParseInt))
        .insert("pi"@, ValueView::Float(PI))
        .insert(
            "make-generator"@,
            ValueView::Procedure(
                ProcedureView {
                    params: seq!["start"@, "step"@],
                    body: seq![generator_body()],
                    scope: 0,
                },
            ),
        )
}

/// Whether `scope` is a scope as it is at the start: one frame, with the
/// global bindings, nothing displayed and no file at hand.
pub open spec fn is_initial(scope: ScopeView) -> bool {
    &&& scope.frames == seq![FrameView { vars: global_bindings(), outer: None }]
    &&& scope.output == Seq::<ValueView>::empty()
    &&& scope.files == Map::<Seq<char>, Seq<char>>::empty()
    &&& scope.missing is None
}

/// The mapping that a list of names and a list of values spell, a later
/// pair overriding an earlier one.
pub open spec fn bindings(names: Seq<Seq<char>>, values: Seq<ValueView>) -> Map<
    Seq<char>,
    ValueView,
>
    decreases names.len(),
{
    if names.len() == 0 || names.len() != values.len() {
        Map::empty()
    } else {
        bindings(names.drop_last(), values.drop_last()).insert(names.last(), values.last())
    }
}

/// Whether no text occurs twice.
pub open spec fn distinct(names: Seq<Seq<char>>) -> bool {
    forall|i: int, j: int| 0 <= i < j < names.len() ==> names[i] != names[j]
}

/// A name that stands at place `i` is bound to the value at place `i`.
pub proof fn lemma_bindings_at(names: Seq<Seq<char>>, values: Seq<ValueView>, i: int)
    requires
        names.len() == values.len(),
        distinct(names),
        0 <= i < names.len(),
    ensures
        bindings(names, values).contains_key(names[i]),
        bindings(names, values)[names[i]] == values[i],
    decreases names.len(),
{
    if i < names.len() - 1 {
        lemma_bindings_at(names.drop_last(), values.drop_last(), i);
    }
}

/// A name that stands nowhere is not bound.
pub proof fn lemma_bindings_absent(names: Seq<Seq<char>>, values: Seq<ValueView>, name: Seq<char>)
    requires
        names.len() == values.len(),
        forall|i: int| 0 <= i < names.len() ==> names[i] != name,
    ensures
        !bindings(names, values).contains_key(name),
    decreases names.len(),
{
    if names.len() > 0 {
        lemma_bindings_absent(names.drop_last(), values.drop_last(), name);
    }
}

/// Replacing the value at place `i` rebinds the name at place `i`.
pub proof fn lemma_bindings_update(
    names: Seq<Seq<char>>,
    values: Seq<ValueView>,
    i: int,
    value: ValueView,
)
    requires
        names.len() == values.len(),
        distinct(names),
        0 <= i < names.len(),
    ensures
        bindings(names, values.update(i, value)) == bindings(names, values).insert(
            names[i],
            value,
        ),
    decreases names.len(),
{
    let last = names.len() - 1;
    if i < last {
        lemma_bindings_update(names.drop_last(), values.drop_last(), i, value);
        assert(values.update(i, value).drop_last() =~= values.drop_last().update(i, value));
        assert(bindings(names, values.update(i, value)) =~= bindings(names, values).insert(
            names[i],
            value,
        ));
    } else {
        assert(values.update(i, value).drop_last() =~= values.drop_last());
        assert(bindings(names, values.update(i, value)) =~= bindings(names, values).insert(
            names[i],
            value,
        ));
    }
}

/// The names that are bound are the names in the list.
pub proof fn lemma_bindings_dom(names: Seq<Seq<char>>, values: Seq<ValueView>)
    requires
        names.len() == values.len(),
    ensures
        bindings(names, values).dom() == names.to_set(),
    decreases names.len(),
{
    if names.len() > 0 {
        lemma_bindings_dom(names.drop_last(), values.drop_last());
        assert(names.to_set() =~= names.drop_last().to_set().insert(names.last())) by {
            assert forall|k: Seq<char>| names.to_set().contains(k) implies names.drop_last().to_set().insert(
                names.last(),
            ).contains(k) by {
                let i = choose|i: int| 0 <= i < names.len() && names[i] == k;
                if i < names.len() - 1 {
                    assert(names.drop_last()[i] == k);
                }
            }
            assert forall|k: Seq<char>|
                names.drop_last().to_set().insert(names.last()).contains(
                    k,
                ) implies names.to_set().contains(k) by {
                if k == names.last() {
                    assert(names[names.len() - 1] == k);
                } else {
                    let i = choose|i: int| 0 <= i < names.len() - 1 && names.drop_last()[i] == k;
                    assert(names[i] == k);
                }
            }
        }
        assert(bindings(names, values).dom() =~= names.to_set());
    } else {
        assert(bindings(names, values).dom() =~= names.to_set());
    }
}

/// One frame: names and their values side by side, and the frame around it.
#[derive(Debug)]
struct Frame {
    names: Vec<String>,
    values: Vec<Value>,
    outer: Option<usize>,
}

impl Frame {
    spec fn wf(self) -> bool {
        &&& self.names.len() == self.values.len()
        &&& distinct(texts(self.names@))
    }

    spec fn model(self) -> FrameView {
        FrameView {
            vars: bindings(texts(self.names@), models(self.values@)),
            outer: match self.outer {
                Some(p) => Some(p as nat),
                None => None,
            },
        }
    }

    /// The place at which `name` stands.
    fn position(&self, name: &String) -> (r: Option<usize>)
        requires
            self.wf(),
        ensures
            match r {
                Some(i) => i < self.names.len() && self.names[i as int]@ == name@,
                None => forall|i: int| 0 <= i < self.names.len() ==> self.names[i]@ != name@,
            },
            r is Some <==> self.model().vars.contains_key(name@),
    {
        let mut i: usize = 0;
        while i < self.names.len()
            invariant
                self.wf(),
                i <= self.names.len(),
                forall|j: int| 0 <= j < i ==> self.names[j]@ != name@,
            decreases self.names.len() - i,
        {
            if self.names[i] == *name {
                proof {
                    lemma_bindings_at(texts(self.names@), models(self.values@), i as int);
                }
                return Some(i);
            }
            i += 1;
        }
        proof {
            lemma_bindings_absent(texts(self.names@), models(self.values@), name@);
        }
        None
    }
}

impl Frame {
    /// A frame with the same bindings and the same frame around it.
    fn copy(&self) -> (r: Self)
        ensures
            r.model() == self.model(),
            texts(r.names@) == texts(self.names@),
            r.values.len() == self.values.len(),
            r.outer == self.outer,
    {
        let names = self.names.clone();
        assert(names@ =~= self.names@);
        Frame { names, values: clone_values(&self.values), outer: self.outer }
    }
}

/// Every frame of one session, what was displayed, and the files at hand.
#[derive(Debug)]
pub struct Scope {
    frames: Vec<Frame>,
    output: Vec<Value>,
    files: Vec<(String, String)>,
    missing: Option<String>,
}

/// The files that a list of names and contents spells, a later pair
/// overriding an earlier one.
pub open spec fn file_table(files: Seq<(String, String)>) -> Map<Seq<char>, Seq<char>>
    decreases files.len(),
{
    if files.len() == 0 {
        Map::empty()
    } else {
        file_table(files.drop_last()).insert(files.last().0@, files.last().1@)
    }
}

impl View for Scope {
    type V = ScopeView;

    closed spec fn view(&self) -> ScopeView {
        ScopeView {
            frames: Seq::new(self.frames@.len(), |i: int| self.frames@[i].model()),
            output: models(self.output@),
            files: file_table(self.files@),
            missing: match self.missing {
                Some(name) => Some(name@),
                None => None,
            },
        }
    }
}

impl Scope {
    #[verifier::type_invariant]
    spec fn wf(self) -> bool {
        &&& forall|i: int|
            0 <= i < self.frames.len() ==> {
                &&& (#[trigger] self.frames[i]).wf()
                &&& (self.frames[i].outer matches Some(p) ==> p < i)
            }
    }

    /// A scope with a global frame that binds nothing.
    pub fn new() -> (r: Self)
        ensures
            r@.frames == seq![FrameView { vars: Map::empty(), outer: None }],
            r@.output == Seq::<ValueView>::empty(),
            r@.files == Map::<Seq<char>, Seq<char>>::empty(),
            r@.missing is None,
    {
        let mut frames: Vec<Frame> = Vec::new();
        frames.push(Frame { names: Vec::new(), values: Vec::new(), outer: None });
        let r = Scope {
            frames,
            output: Vec::new(),
            files: Vec::new(),
            missing: None,
        };
        assert(r@.frames =~= seq![FrameView { vars: Map::empty(), outer: None }]);
        assert(r@.output =~= Seq::<ValueView>::empty());
        r
    }

    /// The scope at the start: a global frame with the native procedures,
    /// π and `make-generator`.
    pub fn global() -> (r: Self)
        ensures
            is_initial(r@),
    {
        let mut scope = Scope::new();
        add_built_in(&mut scope, "+", Primitive::Add);
        add_built_in(&mut scope, "-", Primitive::Sub);
        add_built_in(&mut scope, "*", Primitive::Mul);
        add_built_in(&mut scope, "/", Primitive::Div);
        add_built_in(&mut scope, "and", Primitive::And);
        add_built_in(&mut scope, "or", Primitive::Or);
        add_built_in(&mut scope, "not", Primitive::Not);
        add_built_in(&mut scope, "mod", Primitive::Modulo);
        add_built_in(&mut scope, "=", Primitive::Equal);
        add_built_in(&mut scope, "<=", Primitive::LessEq);
        add_built_in(&mut scope, "<", Primitive::Less);
        add_built_in(&mut scope, ">=", Primitive::GreaterEq);
        add_built_in(&mut scope, ">", Primitive::Greater);
        add_built_in(&mut scope, "list", Primitive::List);
        add_built_in(&mut scope, "string-concatenate", Primitive::StringConcat);
        add_built_in(&mut scope, "display", Primitive::Display);
        add_built_in(&mut scope, "map", Primitive::MapList);
        add_built_in(&mut scope, "apply", Primitive::Apply);
        add_built_in(&mut scope, "read-file", Primitive::ReadFile);
        add_built_in(&mut scope, "split-string", Primitive::SplitString);
        add_built_in(&mut scope, "substring", Primitive::Substring);
        add_built_in(&mut scope, "string->int", Primitive::ParseInt);
        add_built_in(&mut scope, "parse-int", Primitive::ParseInt);
        install(&mut scope, "pi", Value::Float(PI));
        let mut params: Vec<String> = Vec::new();
        params.push("start".to_owned());
        params.push("step".to_owned());
        assert(texts(params@) =~= seq!["start"@, "step"@]);
        add_procedure(&mut scope, "make-generator", params, generator());
        scope
    }

    /// Whether `frame` is the number of a frame of this scope.
    pub fn has_frame(&self, frame: usize) -> (r: bool)
        ensures
            r == self@.has_frame(frame as nat),
    {
        frame < self.frames.len()
    }

    /// Makes an empty frame inside `parent` and returns its number. Where
    /// `parent` is no frame of this scope, the new frame has none around it.
    pub fn nest(&mut self, parent: usize) -> (r: usize)
        ensures
            final(self)@ == old(self)@.nested(parent as nat),
            r == old(self)@.frames.len(),
    {
        proof {
            use_type_invariant(&*self);
        }
        let outer = if parent < self.frames.len() {
            Some(parent)
        } else {
            None
        };
        let r = self.frames.len();
        let mut frames: Vec<Frame> = Vec::new();
        std::mem::swap(&mut self.frames, &mut frames);
        frames.push(Frame { names: Vec::new(), values: Vec::new(), outer });
        std::mem::swap(&mut self.frames, &mut frames);
        assert(self@.frames =~= old(self)@.nested(parent as nat).frames);
        r
    }

    /// The nearest frame, going from `frame` outward, that binds `name`, and
    /// the place of the name in it.
    fn find(&self, frame: usize, name: &String) -> (r: Option<(usize, usize)>)
        ensures
            match r {
                Some((h, i)) => {
                    &&& self@.holder(frame as nat, name@) == Some(h as nat)
                    &&& h < self.frames.len()
                    &&& i < self.frames[h as int].names.len()
                    &&& self.frames[h as int].names[i as int]@ == name@
                },
                None => self@.holder(frame as nat, name@) is None,
            },
    {
        proof {
            use_type_invariant(self);
        }
        if frame >= self.frames.len() {
            return None;
        }
        let mut current: usize = frame;
        loop
            invariant
                self.wf(),
                current < self.frames.len(),
                self@.holder(frame as nat, name@) == self@.holder(current as nat, name@),
            decreases current,
        {
            match self.frames[current].position(name) {
                Some(i) => {
                    return Some((current, i));
                },
                None => {},
            }
            match self.frames[current].outer {
                Some(p) => {
                    current = p;
                },
                None => {
                    return None;
                },
            }
        }
    }

    /// What `name` means in `frame`: a copy of its value in the nearest
    /// frame, going outward, that binds it.
    pub fn get(&self, frame: usize, name: &str) -> (r: Option<Value>)
        ensures
            match r {
                Some(v) => self@.lookup(frame as nat, name@) == Some(v@),
                None => self@.lookup(frame as nat, name@) is None,
            },
    {
        proof {
            use_type_invariant(self);
        }
        let key = name.to_owned();
        match self.find(frame, &key) {
            Some((h, i)) => {
                proof {
                    let held = self.frames[h as int];
                    lemma_bindings_at(texts(held.names@), models(held.values@), i as int);
                }
                Some(self.frames[h].values[i].clone())
            },
            None => None,
        }
    }

    /// Rebinds `name` in the nearest frame, going from `frame` outward, that
    /// binds it. Where none does, nothing changes and the result is `Err`.
    pub fn set(&mut self, frame: usize, name: &str, value: Value) -> (r: Result<(), ()>)
        ensures
            match r {
                Ok(_) => old(self)@.assigned(frame as nat, name@, value@) == Some(final(self)@),
                Err(_) => old(self)@.assigned(frame as nat, name@, value@) is None
                    && final(self)@ == old(self)@,
            },
    {
        proof {
            use_type_invariant(&*self);
        }
        let key = name.to_owned();
        match self.find(frame, &key) {
            Some((h, i)) => {
                let ghost before = self.frames[h as int];
                let mut frames: Vec<Frame> = Vec::new();
                std::mem::swap(&mut self.frames, &mut frames);
                frames[h].values[i] = value;
                proof {
                    let after = frames[h as int];
                    assert(after.names == before.names);
                    assert(after.outer == before.outer);
                    assert(after.wf());
                    assert(models(after.values@) =~= models(before.values@).update(
                        i as int,
                        value@,
                    ));
                    lemma_bindings_update(
                        texts(before.names@),
                        models(before.values@),
                        i as int,
                        value@,
                    );
                    assert forall|j: int| 0 <= j < frames.len() implies (#[trigger] frames[j]).wf()
                        && (frames[j].outer matches Some(p) ==> p < j) by {
                        if j != h {
                            assert(frames[j] == old(self).frames[j]);
                        }
                    }
                }
                std::mem::swap(&mut self.frames, &mut frames);
                assert(self@.frames =~= old(self)@.defined(h as nat, name@, value@).frames);
                Ok(())
            },
            None => Err(()),
        }
    }

    /// The names that `frame` itself binds, each once, in no stated order.
    /// Where `frame` is no frame of this scope, there are none.
    pub fn variables(&self, frame: usize) -> (r: Vec<String>)
        ensures
            distinct(texts(r@)),
            texts(r@).to_set() == if self@.has_frame(frame as nat) {
                self@.frames[frame as int].vars.dom()
            } else {
                Set::empty()
            },
    {
        proof {
            use_type_invariant(self);
        }
        if frame >= self.frames.len() {
            let none: Vec<String> = Vec::new();
            assert(texts(none@).to_set() =~= Set::<Seq<char>>::empty());
            return none;
        }
        let names = self.frames[frame].names.clone();
        proof {
            let held = self.frames[frame as int];
            assert(texts(names@) =~= texts(held.names@));
            lemma_bindings_dom(texts(held.names@), models(held.values@));
        }
        names
    }

    /// Binds `name` to `value` in `frame` itself, over any binding that
    /// `frame` had for it. Where `frame` is no frame of this scope, nothing
    /// changes.
    pub fn define(&mut self, frame: usize, name: &str, value: Value)
        ensures
            final(self)@ == old(self)@.defined(frame as nat, name@, value@),
    {
        proof {
            use_type_invariant(&*self);
        }
        if frame >= self.frames.len() {
            return ;
        }
        let key = name.to_owned();
        let found = self.frames[frame].position(&key);
        let ghost before = self.frames[frame as int];
        let mut frames: Vec<Frame> = Vec::new();
        std::mem::swap(&mut self.frames, &mut frames);
        match found {
            Some(i) => {
                frames[frame].values[i] = value;
                proof {
                    let after = frames[frame as int];
                    assert(after.names == before.names);
                    assert(after.outer == before.outer);
                    assert(after.wf());
                    assert(models(after.values@) =~= models(before.values@).update(
                        i as int,
                        value@,
                    ));
                    lemma_bindings_update(
                        texts(before.names@),
                        models(before.values@),
                        i as int,
                        value@,
                    );
                }
            },
            None => {
                frames[frame].names.push(key);
                frames[frame].values.push(value);
                proof {
                    let after = frames[frame as int];
                    assert(after.outer == before.outer);
                    assert(texts(after.names@) =~= texts(before.names@).push(name@));
                    assert(after.wf());
                    assert(texts(after.names@).drop_last() =~= texts(before.names@));
                    assert(models(after.values@).drop_last() =~= models(before.values@));
                    assert(texts(after.names@).last() == name@);
                    assert(models(after.values@).last() == value@);
                }
            },
        }
        assert forall|i: int| 0 <= i < frames.len() implies (#[trigger] frames[i]).wf() && (
        frames[i].outer matches Some(p) ==> p < i) by {
            if i != frame {
                assert(frames[i] == old(self).frames[i]);
            }
        }
        std::mem::swap(&mut self.frames, &mut frames);
        assert(self@.frames =~= old(self)@.defined(frame as nat, name@, value@).frames);
    }

    /// Puts `value` at the end of what was displayed.
    pub fn emit(&mut self, value: Value)
        ensures
            final(self)@ == old(self)@.displayed(value@),
    {
        proof {
            use_type_invariant(&*self);
        }
        let mut output: Vec<Value> = Vec::new();
        std::mem::swap(&mut self.output, &mut output);
        output.push(value);
        std::mem::swap(&mut self.output, &mut output);
        assert(self@.output =~= old(self)@.output.push(value@));
        assert(self@.frames =~= old(self)@.frames);
    }

    /// Hands out what was displayed, oldest first, and forgets it.
    pub fn take_output(&mut self) -> (r: Vec<Value>)
        ensures
            models(r@) == old(self)@.output,
            final(self)@ == (ScopeView { output: Seq::empty(), ..old(self)@ }),
    {
        proof {
            use_type_invariant(&*self);
        }
        let mut output: Vec<Value> = Vec::new();
        std::mem::swap(&mut self.output, &mut output);
        assert(self@.output =~= Seq::<ValueView>::empty());
        assert(self@.frames =~= old(self)@.frames);
        output
    }

    /// Makes the file `name` readable, with `content` as its text, in place
    /// of any earlier file of that name.
    pub fn provide_file(&mut self, name: &str, content: String)
        ensures
            final(self)@ == (ScopeView {
                files: old(self)@.files.insert(name@, content@),
                ..old(self)@
            }),
    {
        proof {
            use_type_invariant(&*self);
        }
        let mut files: Vec<(String, String)> = Vec::new();
        std::mem::swap(&mut self.files, &mut files);
        files.push((name.to_owned(), content));
        assert(files@.drop_last() =~= old(self).files@);
        std::mem::swap(&mut self.files, &mut files);
        assert(self@.frames =~= old(self)@.frames);
    }

    /// Forgets every file and the name of the missing one.
    pub fn forget_files(&mut self)
        ensures
            final(self)@ == (ScopeView { files: Map::empty(), missing: None, ..old(self)@ }),
    {
        proof {
            use_type_invariant(&*self);
        }
        let mut files: Vec<(String, String)> = Vec::new();
        std::mem::swap(&mut self.files, &mut files);
        self.missing = None;
        assert(self@.frames =~= old(self)@.frames);
    }

    /// The text of the file `name`, if the host has handed it in.
    pub fn file(&self, name: &str) -> (r: Option<String>)
        ensures
            match r {
                Some(text) => self@.files.contains_key(name@) && self@.files[name@] == text@,
                None => !self@.files.contains_key(name@),
            },
    {
        let key = name.to_owned();
        let mut i: usize = self.files.len();
        assert(self.files@.take(i as int) =~= self.files@);
        while i > 0
            invariant
                i <= self.files.len(),
                key@ == name@,
                file_table(self.files@).contains_key(name@) == file_table(
                    self.files@.take(i as int),
                ).contains_key(name@),
                file_table(self.files@).contains_key(name@) ==> file_table(self.files@)[name@]
                    == file_table(self.files@.take(i as int))[name@],
            decreases i,
        {
            assert(self.files@.take(i as int).drop_last() =~= self.files@.take(i - 1));
            if self.files[i - 1].0 == key {
                return Some(self.files[i - 1].1.clone());
            }
            i -= 1;
        }
        None
    }

    /// Notes that a read asked for the file `name` in vain.
    pub fn miss(&mut self, name: &str)
        ensures
            final(self)@ == old(self)@.missed(name@),
    {
        proof {
            use_type_invariant(&*self);
        }
        self.missing = Some(name.to_owned());
        assert(self@.frames =~= old(self)@.frames);
    }

    /// The name of the file that the last failed read asked for.
    pub fn missing_file(&self) -> (r: Option<String>)
        ensures
            match r {
                Some(name) => self@.missing == Some(name@),
                None => self@.missing is None,
            },
    {
        match &self.missing {
            Some(name) => Some(name.clone()),
            None => None,
        }
    }
}

impl Clone for Scope {
    /// A scope with the same frames, output and files, which shares nothing
    /// with this one.
    fn clone(&self) -> (r: Self)
        ensures
            r@ == self@,
    {
        proof {
            use_type_invariant(self);
        }
        let mut frames: Vec<Frame> = Vec::new();
        let mut i: usize = 0;
        while i < self.frames.len()
            invariant
                self.wf(),
                i <= self.frames.len(),
                frames@.len() == i,
                forall|j: int|
                    0 <= j < i ==> {
                        &&& (#[trigger] frames@[j]).model() == self.frames@[j].model()
                        &&& frames@[j].wf()
                        &&& frames@[j].outer == self.frames@[j].outer
                    },
            decreases self.frames.len() - i,
        {
            let copy = self.frames[i].copy();
            assert(self.frames@[i as int].wf());
            frames.push(copy);
            i += 1;
        }
        let mut files: Vec<(String, String)> = Vec::new();
        let mut k: usize = 0;
        while k < self.files.len()
            invariant
                k <= self.files.len(),
                files@.len() == k,
                file_table(files@) == file_table(self.files@.take(k as int)),
            decreases self.files.len() - k,
        {
            let name = self.files[k].0.clone();
            let text = self.files[k].1.clone();
            let ghost before = files@;
            files.push((name, text));
            proof {
                assert(files@.drop_last() =~= before);
                assert(self.files@.take(k + 1).drop_last() =~= self.files@.take(k as int));
                assert(self.files@.take(k + 1).last() == self.files@[k as int]);
                assert(files@.last().0@ == self.files@[k as int].0@);
                assert(files@.last().1@ == self.files@[k as int].1@);
            }
            k += 1;
        }
        assert(self.files@.take(self.files.len() as int) =~= self.files@);
        let missing = match &self.missing {
            Some(name) => Some(name.clone()),
            None => None,
        };
        let r = Scope { frames, output: clone_values(&self.output), files, missing };
        assert(r@.frames =~= self@.frames);
        r
    }
}

/// Binds `name` in the global frame of a scope that has no other frame.
fn install(scope: &mut Scope, name: &str, value: Value)
    requires
        old(scope)@.frames.len() == 1,
    ensures
        final(scope)@ == (ScopeView {
            frames: seq![
                FrameView {
                    vars: old(scope)@.frames[0].vars.insert(name@, value@),
                    outer: old(scope)@.frames[0].outer,
                },
            ],
            ..old(scope)@
        }),
{
    scope.define(GLOBAL, name, value);
    assert(scope@.frames =~= seq![
        FrameView {
            vars: old(scope)@.frames[0].vars.insert(name@, value@),
            outer: old(scope)@.frames[0].outer,
        },
    ]);
}

/// Binds `symbol` to the native procedure `func`.
fn add_built_in(scope: &mut Scope, symbol: &str, func: Primitive)
    requires
        old(scope)@.frames.len() == 1,
    ensures
        final(scope)@ == (ScopeView {
            frames: seq![
                FrameView {
                    vars: old(scope)@.frames[0].vars.insert(symbol@, ValueView::BuiltIn(func)),
                    outer: old(scope)@.frames[0].outer,
                },
            ],
            ..old(scope)@
        }),
{
    install(scope, symbol, Value::BuiltIn(BuiltIn::new(func)));
}

/// Binds `name` to the procedure of `param_names` whose body is the one
/// expression `body` and which captures the global frame.
fn add_procedure(scope: &mut Scope, name: &str, param_names: Vec<String>, body: std::rc::Rc<Expr>)
    requires
        old(scope)@.frames.len() == 1,
    ensures
        final(scope)@ == (ScopeView {
            frames: seq![
                FrameView {
                    vars: old(scope)@.frames[0].vars.insert(
                        name@,
                        ValueView::Procedure(
                            ProcedureView {
                                params: texts(param_names@),
                                body: seq![body@],
                                scope: 0,
                            },
                        ),
                    ),
                    outer: old(scope)@.frames[0].outer,
                },
            ],
            ..old(scope)@
        }),
{
    let mut exprs: Vec<std::rc::Rc<Expr>> = Vec::new();
    exprs.push(body);
    assert(trees(exprs@) =~= seq![body@]);
    install(scope, name, Value::Procedure(Procedure::new(param_names, exprs, GLOBAL)));
}

/// The list of the three expressions.
fn triple(a: std::rc::Rc<Expr>, b: std::rc::Rc<Expr>, c: std::rc::Rc<Expr>) -> (r: std::rc::Rc<
    Expr,
>)
    ensures
        r@ == ExprView::List(seq![a@, b@, c@]),
{
    let mut items: Vec<std::rc::Rc<Expr>> = Vec::new();
    items.push(a);
    items.push(b);
    items.push(c);
    assert(trees(items@) =~= seq![a@, b@, c@]);
    Expr::list(items)
}

/// The body of `make-generator`.
fn generator() -> (r: std::rc::Rc<Expr>)
    ensures
        r@ == generator_body(),
{
    let define_val = triple(Expr::token(Token::Define), Expr::symbol("val"), Expr::symbol("start"));
    let define_result = triple(
        Expr::token(Token::Define),
        Expr::symbol("result"),
        Expr::symbol("val"),
    );
    let next = triple(Expr::symbol("+"), Expr::symbol("val"), Expr::symbol("step"));
    let advance = triple(Expr::token(Token::Assign), Expr::symbol("val"), next);
    let mut inner: Vec<std::rc::Rc<Expr>> = Vec::new();
    inner.push(Expr::token(Token::Begin));
    inner.push(define_result);
    inner.push(advance);
    inner.push(Expr::symbol("result"));
    let ghost inner_trees = trees(inner@);
    assert(inner_trees =~= seq![inner@[0]@, inner@[1]@, inner@[2]@, inner@[3]@]);
    let no_params: Vec<std::rc::Rc<Expr>> = Vec::new();
    assert(trees(no_params@) =~= Seq::<ExprView>::empty());
    let closure = triple(Expr::token(Token::Lambda), Expr::list(no_params), Expr::list(inner));
    triple(Expr::token(Token::Begin), define_val, closure)
}

} // verus!
