use std::rc::Rc;

use vstd::prelude::*;

use crate::atom::{is_nil_spec, is_sym, Atom, Builtin};
use crate::builtins::{builtin_name, builtin_name_of};
use crate::error::LispError;

verus! {

/// What one frame binds, by name.
pub type Frame = Map<Seq<char>, Atom>;

/// One frame of bindings, kept in a persistent hash map so that capturing an
/// environment in a closure is cheap.
#[verifier::external_body]
#[derive(Debug)]
pub struct Bindings {
    map: im_rc::HashMap<String, Rc<Atom>>,
}

/// What a frame binds, by name.
pub uninterp spec fn bindings_of(b: Bindings) -> Frame;

impl Bindings {
    /// Relies on im_rc::HashMap::new: the map starts empty.
    #[verifier::external_body]
    fn empty() -> (r: Bindings)
        ensures
            bindings_of(r) == Frame::empty(),
    {
        Bindings { map: im_rc::HashMap::new() }
    }

    /// Relies on im_rc::HashMap::get: the value bound to the key, if any.
    #[verifier::external_body]
    fn find(&self, name: &str) -> (r: Option<Rc<Atom>>)
        ensures
            match r {
                Some(v) => bindings_of(*self).contains_key(name@) && *v == bindings_of(*self)[name@],
                None => !bindings_of(*self).contains_key(name@),
            },
    {
        self.map.get(name).cloned()
    }

    /// Relies on im_rc::HashMap::insert: binds the key, replacing what it held.
    #[verifier::external_body]
    fn bind(&mut self, name: String, value: Rc<Atom>)
        ensures
            bindings_of(*final(self)) == bindings_of(*old(self)).insert(name@, *value),
    {
        self.map.insert(name, value);
    }

    /// Relies on im_rc::HashMap's Clone: a map with the same entries.
    #[verifier::external_body]
    fn duplicate(&self) -> (r: Bindings)
        ensures
            bindings_of(r) == bindings_of(*self),
    {
        Bindings { map: self.map.clone() }
    }
}

/// Bindings from symbols to atoms, with an optional parent environment.
#[derive(Debug)]
pub struct Env {
    pub bindings: Bindings,
    pub parent: Option<Box<Env>>,
}

/// The first frame, from the innermost outwards, that binds `name`.
pub open spec fn find_in(frames: Seq<Frame>, name: Seq<char>) -> Option<Atom>
    decreases frames.len(),
{
    if frames.len() == 0 {
        None
    } else if frames[0].contains_key(name) {
        Some(frames[0][name])
    } else {
        find_in(frames.drop_first(), name)
    }
}

impl View for Env {
    type V = Seq<Frame>;

    /// The frames, innermost first.
    open spec fn view(&self) -> Seq<Frame>
        decreases self,
    {
        match self.parent {
            Some(p) => seq![bindings_of(self.bindings)] + (*p).view(),
            None => seq![bindings_of(self.bindings)],
        }
    }
}

pub open spec fn lookup(env: Env, name: Seq<char>) -> Option<Atom> {
    find_in(env@, name)
}

pub open spec fn parent_view(parent: Option<Box<Env>>) -> Seq<Frame> {
    match parent {
        Some(p) => (*p)@,
        None => Seq::empty(),
    }
}

/// The environment with `name` bound to `value` in its innermost frame.
pub open spec fn env_set(frames: Seq<Frame>, name: Seq<char>, value: Atom) -> Seq<Frame> {
    frames.update(0, frames[0].insert(name, value))
}

impl Env {
    /// An environment has at least its own frame.
    pub proof fn lemma_frames_nonempty(&self)
        ensures
            self@.len() >= 1,
    {
        self.lemma_view_first();
    }

    pub proof fn lemma_view_first(&self)
        ensures
            self@.len() == 1 + parent_view(self.parent).len(),
            self@[0] == bindings_of(self.bindings),
            self@.drop_first() == parent_view(self.parent),
    {
        assert(self@.drop_first() =~= parent_view(self.parent));
    }

    /// A new empty frame chained to the given parent.
    pub fn new(parent: Option<Box<Env>>) -> (r: Env)
        ensures
            r@ == seq![Frame::empty()] + parent_view(parent),
    {
        let r = Env { bindings: Bindings::empty(), parent };
        proof {
            if parent is None {
                assert(r@ =~= seq![Frame::empty()] + parent_view(parent));
            }
        }
        r
    }

    /// A copy of this environment, frame by frame.
    pub fn duplicate(&self) -> (r: Env)
        ensures
            r@ == self@,
        decreases self,
    {
        let parent = match &self.parent {
            Some(p) => Some(Box::new(p.duplicate())),
            None => None,
        };
        Env { bindings: self.bindings.duplicate(), parent }
    }

    /// The value bound to `name` in the nearest frame that binds it.
    pub fn get(&self, name: &str) -> (r: Result<Rc<Atom>, LispError>)
        ensures
            match lookup(*self, name@) {
                Some(v) => r is Ok && *r->Ok_0 == v,
                None => r is Err && r->Err_0 is UnboundSymbol && r->Err_0->UnboundSymbol_0@ == name@,
            },
        decreases self,
    {
        proof {
            self.lemma_view_first();
        }
        match self.bindings.find(name) {
            Some(v) => {
                assert(lookup(*self, name@) == Some(*v));
                Ok(v)
            },
            None => match &self.parent {
                Some(p) => {
                    let r = p.get(name);
                    assert(lookup(*self, name@) == lookup(**p, name@));
                    r
                },
                None => {
                    assert(find_in(self@.drop_first(), name@) is None);
                    assert(lookup(*self, name@) is None);
                    Err(LispError::UnboundSymbol(String::from_str(name)))
                },
            },
        }
    }

    /// Binds `name` in this frame only.
    pub fn set(&mut self, name: String, value: Rc<Atom>)
        ensures
            final(self)@ == env_set(old(self)@, name@, *value),
            final(self)@.len() == old(self)@.len(),
            final(self)@[0].contains_key(name@),
    {
        proof {
            old(self).lemma_view_first();
        }
        self.bindings.bind(name, value);
        proof {
            self.lemma_view_first();
            let o = old(self)@;
            assert(self@ =~= env_set(o, name@, *value));
        }
    }

    /// Attaches `parent` after the outermost frame.
    pub fn add_furthest_parent(&mut self, parent: Env)
        ensures
            final(self)@ == old(self)@ + parent@,
        decreases old(self)@.len(),
    {
        match self.parent.take() {
            Some(mut p) => {
                p.add_furthest_parent(parent);
                self.parent = Some(p);
            },
            None => {
                self.parent = Some(Box::new(parent));
            },
        }
        proof {
            assert(final(self)@ =~= old(self)@ + parent@);
        }
    }
}

/// Every procedure, in the order the root environment binds them.
pub fn all_builtins() -> (r: Vec<Builtin>)
    ensures
        forall|op: Builtin| r@.contains(op),
        forall|j: int, k: int| 0 <= j < k < r@.len() ==> r@[j] != r@[k],
{
    let r = vec![
        Builtin::IntoPrettyString,
        Builtin::IntoString,
        Builtin::Print,
        Builtin::Println,
        Builtin::IsPair,
        Builtin::IsSymbol,
        Builtin::IsString,
        Builtin::StringLength,
        Builtin::Car,
        Builtin::Cdr,
        Builtin::Cons,
        Builtin::Add,
        Builtin::Sub,
        Builtin::Mul,
        Builtin::Div,
        Builtin::Rem,
        Builtin::NumEq,
        Builtin::Less,
        Builtin::LessEq,
        Builtin::Greater,
        Builtin::GreaterEq,
    ];
    proof {
        assert forall|op: Builtin| r@.contains(op) by {
            match op {
                Builtin::IntoPrettyString => assert(r@[0] == op),
                Builtin::IntoString => assert(r@[1] == op),
                Builtin::Print => assert(r@[2] == op),
                Builtin::Println => assert(r@[3] == op),
                Builtin::IsPair => assert(r@[4] == op),
                Builtin::IsSymbol => assert(r@[5] == op),
                Builtin::IsString => assert(r@[6] == op),
                Builtin::StringLength => assert(r@[7] == op),
                Builtin::Car => assert(r@[8] == op),
                Builtin::Cdr => assert(r@[9] == op),
                Builtin::Cons => assert(r@[10] == op),
                Builtin::Add => assert(r@[11] == op),
                Builtin::Sub => assert(r@[12] == op),
                Builtin::Mul => assert(r@[13] == op),
                Builtin::Div => assert(r@[14] == op),
                Builtin::Rem => assert(r@[15] == op),
                Builtin::NumEq => assert(r@[16] == op),
                Builtin::Less => assert(r@[17] == op),
                Builtin::LessEq => assert(r@[18] == op),
                Builtin::Greater => assert(r@[19] == op),
                Builtin::GreaterEq => assert(r@[20] == op),
            }
        }
    }
    r
}

/// The names that evaluate to themselves so that the evaluator can
/// recognise the special forms.
pub open spec fn is_keyword(name: Seq<char>) -> bool {
    name == "define"@ || name == "defmacro"@ || name == "lambda"@ || name == "if"@ || name
        == "quote"@ || name == "apply"@
}

/// A name that the root environment binds: nil, t, a keyword or a
/// procedure's name.
pub open spec fn is_root_name(n: Seq<char>) -> bool {
    is_keyword(n) || n == "nil"@ || n == "t"@ || exists|op: Builtin| builtin_name(op) == n
}

impl Default for Env {
    /// The root environment: an empty frame whose parent binds nil, t, the
    /// special-form keywords (each to itself) and the procedures.
    fn default() -> (r: Env)
        ensures
            r@.len() == 2,
            r@[0] == Frame::empty(),
            r@[1].contains_key("nil"@) && is_nil_spec(r@[1]["nil"@]),
            r@[1].contains_key("t"@) && is_sym(r@[1]["t"@], "t"@),
            forall|k: Seq<char>| is_keyword(k) ==> #[trigger] r@[1].contains_key(k) && is_sym(r@[1][k], k),
            forall|op: Builtin| #[trigger] r@[1].contains_key(builtin_name(op)) && r@[1][builtin_name(op)]
                == Atom::NativeFunc(op),
            forall|n: Seq<char>| #[trigger] r@[1].contains_key(n) ==> is_root_name(n),
    {
        proof {
            crate::builtins::lemma_root_names_distinct();
        }
        let mut root = Env::new(None);
        let ops = all_builtins();
        let mut i: usize = 0;
        while i < ops.len()
            invariant
                root@.len() == 1,
                0 <= i <= ops@.len(),
                forall|op: Builtin| #[trigger] ops@.contains(op),
                forall|j: int, k: int| 0 <= j < k < ops@.len() ==> ops@[j] != ops@[k],
                forall|j: int| 0 <= j < i ==> #[trigger] root@[0].contains_key(builtin_name(ops@[j]))
                    && root@[0][builtin_name(ops@[j])] == Atom::NativeFunc(ops@[j]),
                forall|n: Seq<char>| #[trigger] root@[0].contains_key(n) ==> exists|j: int| 0 <= j < i
                    && builtin_name(ops@[j]) == n,
            decreases ops@.len() - i,
        {
            let op = ops[i];
            let ghost before = root@[0];
            root.set(String::from_str(builtin_name_of(op)), Rc::new(Atom::NativeFunc(op)));
            proof {
                crate::builtins::lemma_root_names_distinct();
                assert forall|j: int| 0 <= j < i + 1 implies #[trigger] root@[0].contains_key(builtin_name(ops@[j]))
                    && root@[0][builtin_name(ops@[j])] == Atom::NativeFunc(ops@[j]) by {
                    if j < i {
                        assert(ops@[j] != ops@[i as int]);
                        assert(builtin_name(ops@[j]) != builtin_name(ops@[i as int]));
                    }
                }
                assert forall|n: Seq<char>| #[trigger] root@[0].contains_key(n) implies exists|j: int| 0 <= j < i + 1
                    && builtin_name(ops@[j]) == n by {
                    if n != builtin_name(ops@[i as int]) {
                        assert(before.contains_key(n));
                    }
                }
            }
            i = i + 1;
        }
        let ghost after_ops = root@[0];
        root.set(String::from_str("nil"), Rc::new(Atom::nil()));
        root.set(String::from_str("t"), Rc::new(Atom::t()));
        root.set(String::from_str("define"), Rc::new(Atom::symbol("define")));
        root.set(String::from_str("defmacro"), Rc::new(Atom::symbol("defmacro")));
        root.set(String::from_str("lambda"), Rc::new(Atom::symbol("lambda")));
        root.set(String::from_str("if"), Rc::new(Atom::symbol("if")));
        root.set(String::from_str("quote"), Rc::new(Atom::symbol("quote")));
        root.set(String::from_str("apply"), Rc::new(Atom::symbol("apply")));
        let ghost root_frame = root@[0];
        proof {
            crate::builtins::lemma_root_names_distinct();
            reveal_strlit("nil");
            reveal_strlit("t");
            reveal_strlit("define");
            reveal_strlit("defmacro");
            reveal_strlit("lambda");
            reveal_strlit("if");
            reveal_strlit("quote");
            reveal_strlit("apply");
            assert("define"@[0] != "lambda"@[0]);
            assert("quote"@[0] != "apply"@[0]);
            assert("nil"@[0] != "t"@[0]);
            assert forall|op: Builtin| #[trigger] root_frame.contains_key(builtin_name(op)) && root_frame[builtin_name(op)]
                == Atom::NativeFunc(op) by {
                assert(ops@.contains(op));
                let j = choose|j: int| 0 <= j < ops@.len() && ops@[j] == op;
                assert(after_ops.contains_key(builtin_name(ops@[j])));
                assert(after_ops[builtin_name(op)] == Atom::NativeFunc(op));
                assert(builtin_name(op) != "nil"@ && builtin_name(op) != "t"@ && builtin_name(op) != "define"@
                    && builtin_name(op) != "defmacro"@ && builtin_name(op) != "lambda"@ && builtin_name(op) != "if"@
                    && builtin_name(op) != "quote"@ && builtin_name(op) != "apply"@);
            }
            assert forall|n: Seq<char>| #[trigger] root_frame.contains_key(n) implies is_root_name(n) by {
                if !(is_keyword(n) || n == "nil"@ || n == "t"@) {
                    assert(after_ops.contains_key(n));
                    let j = choose|j: int| 0 <= j < ops@.len() && builtin_name(ops@[j]) == n;
                    assert(builtin_name(ops@[j]) == n);
                }
            }
        }
        let r = Env::new(Some(Box::new(root)));
        proof {
            assert(r@[1] == root_frame);
            crate::builtins::lemma_root_names_distinct();
            assert forall|op: Builtin| #[trigger] r@[1].contains_key(builtin_name(op)) && r@[1][builtin_name(op)]
                == Atom::NativeFunc(op) by {
                assert(ops@.contains(op));
                let j = choose|j: int| 0 <= j < ops@.len() && ops@[j] == op;
                assert(after_ops.contains_key(builtin_name(ops@[j])));
                assert(after_ops[builtin_name(op)] == Atom::NativeFunc(op));
                assert(builtin_name(op) != "nil"@ && builtin_name(op) != "t"@ && builtin_name(op) != "define"@
                    && builtin_name(op) != "defmacro"@ && builtin_name(op) != "lambda"@ && builtin_name(op) != "if"@
                    && builtin_name(op) != "quote"@ && builtin_name(op) != "apply"@);
            }
        }
        r
    }
}

} // verus!
