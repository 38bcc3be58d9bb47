use vstd::prelude::*;
use crate::ast::{Ast, AstV, ast_view, asts_view, strs_view, lemma_asts_view_index};

verus! {

/// One scope frame: a name-to-value table together with an optional
/// enclosing frame.  Lookup walks outward frame by frame; writes go to the
/// current frame only.  A frame's entries can be rebound: a later `set` on
/// the same key overwrites the earlier one.
///
/// The model of an environment is the sequence of its frames' mappings,
/// outermost first, innermost last.
pub struct Environment {
    definitions: Vec<(String, Ast)>,
    outer_environment: Option<Box<Environment>>,
}

/// The mapping that a frame's entry list denotes: later entries shadow
/// earlier ones.
spec fn frame_map(s: Seq<(String, Ast)>) -> Map<Seq<char>, AstV>
    decreases s.len(),
{
    if s.len() == 0 {
        Map::empty()
    } else {
        frame_map(s.drop_last()).insert(s.last().0@, ast_view(s.last().1))
    }
}

/// The model of an environment chain: outermost frame first.
pub closed spec fn env_view(e: Environment) -> Seq<Map<Seq<char>, AstV>>
    decreases e,
{
    match e.outer_environment {
        None => seq![frame_map(e.definitions@)],
        Some(o) => env_view(*o).push(frame_map(e.definitions@)),
    }
}

impl View for Environment {
    type V = Seq<Map<Seq<char>, AstV>>;

    closed spec fn view(&self) -> Seq<Map<Seq<char>, AstV>> {
        env_view(*self)
    }
}

/// Lookup: search the innermost frame, then the enclosing ones in turn.
pub open spec fn env_lookup(env: Seq<Map<Seq<char>, AstV>>, name: Seq<char>) -> Option<AstV>
    decreases env.len(),
{
    if env.len() == 0 {
        None
    } else if env.last().contains_key(name) {
        Some(env.last()[name])
    } else {
        env_lookup(env.drop_last(), name)
    }
}

/// Binding a name in the innermost frame.
pub open spec fn env_bind(
    env: Seq<Map<Seq<char>, AstV>>,
    name: Seq<char>,
    value: AstV,
) -> Seq<Map<Seq<char>, AstV>>
    recommends
        env.len() >= 1,
{
    env.update(env.len() - 1, env.last().insert(name, value))
}

/// Pairwise binding of equal-length name and value lists into a frame, in
/// order: a later duplicate name overwrites an earlier one.
pub open spec fn bind_params(
    frame: Map<Seq<char>, AstV>,
    names: Seq<Seq<char>>,
    values: Seq<AstV>,
) -> Map<Seq<char>, AstV>
    recommends
        names.len() == values.len(),
    decreases names.len(),
{
    if names.len() == 0 {
        frame
    } else {
        bind_params(frame, names.drop_last(), values.drop_last()).insert(
            names.last(),
            values.last(),
        )
    }
}

/// Pairwise binding into the innermost frame of an environment.
pub open spec fn env_bind_params(
    env: Seq<Map<Seq<char>, AstV>>,
    names: Seq<Seq<char>>,
    values: Seq<AstV>,
) -> Seq<Map<Seq<char>, AstV>>
    recommends
        env.len() >= 1,
        names.len() == values.len(),
{
    env.update(env.len() - 1, bind_params(env.last(), names, values))
}

/// The model of an optional value.
pub open spec fn opt_view(r: Option<Ast>) -> Option<AstV> {
    match r {
        Some(v) => Some(ast_view(v)),
        None => None,
    }
}

/// An entry whose key matches, with no later match, decides the frame's
/// mapping at that key.
proof fn lemma_frame_map_found(s: Seq<(String, Ast)>, k: Seq<char>, i: int)
    requires
        0 <= i < s.len(),
        s[i].0@ == k,
        forall|j: int| i < j < s.len() ==> (#[trigger] s[j]).0@ != k,
    ensures
        frame_map(s).contains_key(k),
        frame_map(s)[k] == ast_view(s[i].1),
    decreases s.len(),
{
    if i == s.len() - 1 {
    } else {
        assert(s.last().0@ != k);
        lemma_frame_map_found(s.drop_last(), k, i);
        assert(s.drop_last()[i] == s[i]);
    }
}

/// A key that no entry carries is absent from the frame's mapping.
proof fn lemma_frame_map_missing(s: Seq<(String, Ast)>, k: Seq<char>)
    requires
        forall|j: int| 0 <= j < s.len() ==> (#[trigger] s[j]).0@ != k,
    ensures
        !frame_map(s).contains_key(k),
    decreases s.len(),
{
    if s.len() > 0 {
        lemma_frame_map_missing(s.drop_last(), k);
    }
}

proof fn lemma_env_view_len(e: Environment)
    ensures
        env_view(e).len() >= 1,
    decreases e,
{
    match e.outer_environment {
        None => {},
        Some(o) => lemma_env_view_len(*o),
    }
}

/// Two entry lists with the same keys and the same value models denote
/// the same mapping.
proof fn lemma_frame_map_congruence(s1: Seq<(String, Ast)>, s2: Seq<(String, Ast)>)
    requires
        s1.len() == s2.len(),
        forall|j: int|
            0 <= j < s1.len() ==> (#[trigger] s1[j]).0@ == s2[j].0@ && ast_view(s1[j].1)
                == ast_view(s2[j].1),
    ensures
        frame_map(s1) == frame_map(s2),
    decreases s1.len(),
{
    if s1.len() > 0 {
        assert forall|j: int|
            0 <= j < s1.drop_last().len() implies (#[trigger] s1.drop_last()[j]).0@
            == s2.drop_last()[j].0@ && ast_view(s1.drop_last()[j].1) == ast_view(
            s2.drop_last()[j].1,
        ) by {
            assert(s1.drop_last()[j] == s1[j]);
            assert(s2.drop_last()[j] == s2[j]);
        }
        lemma_frame_map_congruence(s1.drop_last(), s2.drop_last());
        assert(s1.last().0@ == s2.last().0@ && ast_view(s1.last().1) == ast_view(s2.last().1));
    }
}

impl Clone for Environment {
    /// A deep copy whose model equals the model of the original, so that a
    /// caller can keep its accumulated definitions across an evaluation
    /// that may fail.
    fn clone(&self) -> (r: Self)
        ensures
            r@ == self@,
        decreases *self,
    {
        let mut defs: Vec<(String, Ast)> = Vec::new();
        let mut i: usize = 0;
        while i < self.definitions.len()
            invariant
                i <= self.definitions@.len(),
                defs@.len() == i,
                forall|j: int|
                    0 <= j < i ==> (#[trigger] defs@[j]).0@ == self.definitions@[j].0@
                        && ast_view(defs@[j].1) == ast_view(self.definitions@[j].1),
            decreases self.definitions@.len() - i,
        {
            let k = self.definitions[i].0.clone();
            let v = self.definitions[i].1.clone();
            defs.push((k, v));
            i = i + 1;
        }
        proof {
            lemma_frame_map_congruence(defs@, self.definitions@);
        }
        match &self.outer_environment {
            Some(o) => {
                let inner = (&**o).clone();
                proof {
                    assert(self@ == env_view(**o).push(frame_map(self.definitions@)));
                }
                Environment { definitions: defs, outer_environment: Some(Box::new(inner)) }
            },
            None => {
                proof {
                    assert(self@ == seq![frame_map(self.definitions@)]);
                }
                Environment { definitions: defs, outer_environment: None }
            },
        }
    }
}

/// Every environment chain has at least one frame.
pub proof fn lemma_env_len(e: &Environment)
    ensures
        e@.len() >= 1,
{
    lemma_env_view_len(*e);
}

impl Environment {
    /// A fresh, empty frame chained to `outer_environment`.
    pub fn new(outer_environment: Option<Box<Environment>>) -> (r: Self)
        ensures
            r@ == match outer_environment {
                Some(o) => (*o)@.push(Map::<Seq<char>, AstV>::empty()),
                None => seq![Map::<Seq<char>, AstV>::empty()],
            },
    {
        Environment { definitions: Vec::new(), outer_environment }
    }

    /// Fallback lookup: this frame first, then the enclosing chain; `None`
    /// only when the whole chain misses.
    pub fn get(&self, key: &String) -> (r: Option<Ast>)
        ensures
            opt_view(r) == env_lookup(self@, key@),
        decreases *self,
    {
        let n = self.definitions.len();
        let mut i: usize = n;
        while i > 0
            invariant
                i <= self.definitions@.len(),
                forall|j: int|
                    i <= j < self.definitions@.len() ==> (#[trigger] self.definitions@[j]).0@
                        != key@,
            decreases i,
        {
            i = i - 1;
            if self.definitions[i].0 == *key {
                let v = self.definitions[i].1.clone();
                proof {
                    lemma_frame_map_found(self.definitions@, key@, i as int);
                }
                return Some(v);
            }
        }
        proof {
            lemma_frame_map_missing(self.definitions@, key@);
        }
        match &self.outer_environment {
            Some(outer) => {
                proof {
                    assert(self@ == env_view(**outer).push(frame_map(self.definitions@)));
                    assert(self@.last() == frame_map(self.definitions@));
                    assert(self@.drop_last() =~= env_view(**outer));
                    assert(!self@.last().contains_key(key@));
                    assert(env_lookup(self@, key@) == env_lookup(env_view(**outer), key@));
                }
                outer.get(key)
            },
            None => {
                proof {
                    assert(self@ == seq![frame_map(self.definitions@)]);
                    assert(self@.last() == frame_map(self.definitions@));
                    assert(self@.drop_last() =~= Seq::<Map<Seq<char>, AstV>>::empty());
                    assert(!self@.last().contains_key(key@));
                    assert(env_lookup(Seq::<Map<Seq<char>, AstV>>::empty(), key@) == None::<AstV>);
                    assert(env_lookup(self@, key@) == None::<AstV>);
                }
                None
            },
        }
    }

    /// Inserts or overwrites `key` in the current frame only; enclosing
    /// frames are never touched.
    pub fn set(&mut self, key: String, value: Ast)
        ensures
            final(self)@ == env_bind(old(self)@, key@, value@),
    {
        let ghost pre = *self;
        self.definitions.push((key, value));
        proof {
            assert(self.definitions@.drop_last() =~= pre.definitions@);
            lemma_env_view_len(pre);
            assert(self@ =~= env_bind(pre@, key@, ast_view(value)));
        }
    }

    /// Pairwise-binds two equal-length lists into the current frame and
    /// returns `true`; when the lengths differ it binds nothing and
    /// returns `false`.
    pub fn set_list(&mut self, keys: Vec<String>, values: Vec<Ast>) -> (r: bool)
        ensures
            r == (keys@.len() == values@.len()),
            r ==> final(self)@ == env_bind_params(old(self)@, strs_view(keys@), asts_view(values@)),
            !r ==> final(self)@ == old(self)@,
    {
        if keys.len() != values.len() {
            return false;
        }
        let ghost pre = *self;
        let ghost names = strs_view(keys@);
        let ghost vals = asts_view(values@);
        proof {
            lemma_asts_view_index(values@);
            lemma_env_view_len(pre);
        }
        let mut i: usize = 0;
        while i < keys.len()
            invariant
                i <= keys@.len(),
                keys@.len() == values@.len(),
                names == strs_view(keys@),
                vals == asts_view(values@),
                vals.len() == values@.len(),
                forall|j: int| 0 <= j < values@.len() ==> vals[j] == ast_view(#[trigger] values@[j]),
                pre@.len() >= 1,
                self.outer_environment == pre.outer_environment,
                frame_map(self.definitions@) == bind_params(
                    frame_map(pre.definitions@),
                    names.take(i as int),
                    vals.take(i as int),
                ),
            decreases keys@.len() - i,
        {
            let k = keys[i].clone();
            let v = values[i].clone();
            let ghost defs_pre = self.definitions@;
            self.definitions.push((k, v));
            proof {
                assert(self.definitions@.drop_last() =~= defs_pre);
                assert(names.take(i + 1).drop_last() =~= names.take(i as int));
                assert(vals.take(i + 1).drop_last() =~= vals.take(i as int));
                assert(names.take(i + 1).last() == names[i as int]);
                assert(vals.take(i + 1).last() == vals[i as int]);
            }
            i = i + 1;
        }
        proof {
            assert(names.take(keys@.len() as int) =~= names);
            assert(vals.take(keys@.len() as int) =~= vals);
            assert(self@ =~= env_bind_params(pre@, names, vals));
        }
        true
    }

    /// Discards the innermost frame and hands back the enclosing chain.
    pub fn pop_frame(self) -> (r: Environment)
        requires
            self@.len() >= 2,
        ensures
            r@ == self@.drop_last(),
    {
        match self.outer_environment {
            Some(o) => {
                proof {
                    assert(self@.drop_last() =~= env_view(*o));
                }
                *o
            },
            None => vstd::pervasive::unreached(),
        }
    }
}

} // verus!
