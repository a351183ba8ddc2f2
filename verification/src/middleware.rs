//! A chain of string transformations; the stage added last runs first, so
//! each new stage wraps the chain built so far.
//!
//! Each stage is a caller-supplied closure.  Nothing is known of what an
//! unverified closure computes, so the chain is specified relationally:
//! [`MiddlewareChain::execute`] returns a string reachable from the input by
//! one possible output of each stage in turn ([`chain_relates`]).
use vstd::prelude::*;

verus! {

/// A stage of the chain, as a relation between its input and output.
pub trait Stage {
    /// `output` is a possible result of this stage on `input`.
    spec fn transforms(&self, input: Seq<char>, output: Seq<char>) -> bool;

    fn apply(&self, input: &str) -> (out: String)
        ensures
            self.transforms(input@, out@),
    ;
}

/// A closure that accepts every input, used as a stage.
pub struct ClosureStage<F: Fn(&str) -> String> {
    f: F,
}

impl<F: Fn(&str) -> String> ClosureStage<F> {
    #[verifier::type_invariant]
    closed spec fn total(&self) -> bool {
        forall|x: &str| call_requires(self.f, (x,))
    }
}

impl<F: Fn(&str) -> String> Stage for ClosureStage<F> {
    closed spec fn transforms(&self, input: Seq<char>, output: Seq<char>) -> bool {
        exists|x: &str, r: String| x@ == input && r@ == output && call_ensures(self.f, (x,), r)
    }

    fn apply(&self, input: &str) -> (out: String) {
        proof {
            use_type_invariant(self);
        }
        (self.f)(input)
    }
}

/// `steps` is a run of the stages: it starts at `input`, and each stage
/// turns one entry into the next.
pub open spec fn is_run(
    stages: Seq<spec_fn(Seq<char>, Seq<char>) -> bool>,
    steps: Seq<Seq<char>>,
    input: Seq<char>,
) -> bool {
    &&& steps.len() == stages.len() + 1
    &&& steps[0] == input
    &&& forall|i: int| 0 <= i < stages.len() ==> (#[trigger] stages[i])(steps[i], steps[i + 1])
}

/// `output` is reachable from `input` through the stages in order.
pub open spec fn chain_relates(
    stages: Seq<spec_fn(Seq<char>, Seq<char>) -> bool>,
    input: Seq<char>,
    output: Seq<char>,
) -> bool {
    exists|steps: Seq<Seq<char>>| #[trigger] is_run(stages, steps, input) && steps.last() == output
}

/// A run through a non-empty chain starts with its first stage and goes on
/// through the others.
pub proof fn lemma_chain_split_first(
    stages: Seq<spec_fn(Seq<char>, Seq<char>) -> bool>,
    input: Seq<char>,
    output: Seq<char>,
)
    requires
        stages.len() > 0,
        chain_relates(stages, input, output),
    ensures
        exists|mid: Seq<char>|
            #[trigger] (stages[0])(input, mid) && chain_relates(stages.drop_first(), mid, output),
{
    let steps = choose|steps: Seq<Seq<char>>| #[trigger] is_run(stages, steps, input) && steps.last() == output;
    let rest = steps.drop_first();
    assert(stages[0](steps[0], steps[1]));
    assert forall|i: int| 0 <= i < stages.len() - 1 implies (#[trigger] stages.drop_first()[i])(rest[i], rest[i + 1]) by {
        assert(stages.drop_first()[i] == stages[i + 1]);
        assert(stages[i + 1](steps[i + 1], steps[i + 2]));
    }
    assert(is_run(stages.drop_first(), rest, steps[1]));
    assert(rest.last() == output);
    assert(chain_relates(stages.drop_first(), steps[1], output));
}

/// A run through the first stage and then through the others is a run
/// through the chain.
pub proof fn lemma_chain_prepend(
    stages: Seq<spec_fn(Seq<char>, Seq<char>) -> bool>,
    input: Seq<char>,
    mid: Seq<char>,
    output: Seq<char>,
)
    requires
        stages.len() > 0,
        (stages[0])(input, mid),
        chain_relates(stages.drop_first(), mid, output),
    ensures
        chain_relates(stages, input, output),
{
    let steps = choose|steps: Seq<Seq<char>>| #[trigger] is_run(stages.drop_first(), steps, mid) && steps.last() == output;
    let more = seq![input] + steps;
    assert forall|i: int| 0 <= i < stages.len() implies (#[trigger] stages[i])(more[i], more[i + 1]) by {
        if i > 0 {
            assert(stages.drop_first()[i - 1] == stages[i]);
            assert(more[i] == steps[i - 1]);
            assert(more[i + 1] == steps[i]);
        }
    }
    assert(is_run(stages, more, input));
}

/// The empty chain relates every input to itself alone.
pub proof fn lemma_chain_empty(input: Seq<char>, output: Seq<char>)
    ensures
        chain_relates(Seq::empty(), input, output) <==> output == input,
{
    if output == input {
        assert(is_run(Seq::empty(), seq![input], input));
    }
}

/// The stages, newest (first to run) first.
enum StageList<S> {
    Nil,
    Cons(S, Box<StageList<S>>),
}

/// The relations of the stages in `l`, in running order.
spec fn list_stages(l: StageList<Box<dyn Stage>>) -> Seq<spec_fn(Seq<char>, Seq<char>) -> bool>
    decreases l,
{
    match l {
        StageList::Nil => Seq::empty(),
        StageList::Cons(s, rest) => seq![|a: Seq<char>, b: Seq<char>| s.transforms(a, b)]
            + list_stages(*rest),
    }
}

/// The first relation of a list is that of its first stage.
proof fn lemma_first_stage(l: StageList<Box<dyn Stage>>, a: Seq<char>, b: Seq<char>)
    requires
        l is Cons,
    ensures
        (list_stages(l)[0])(a, b) == l->0.transforms(a, b),
{
    let f = |x: Seq<char>, y: Seq<char>| l->0.transforms(x, y);
    assert(list_stages(l) == seq![f] + list_stages(*l->1));
    assert(list_stages(l)[0] == f);
}

/// Runs `input` through the stages of `l` in running order.
fn run_list(l: &StageList<Box<dyn Stage>>, input: &str) -> (r: String)
    ensures
        chain_relates(list_stages(*l), input@, r@),
    decreases l,
{
    match l {
        StageList::Nil => {
            let r = input.to_owned();
            assert(list_stages(*l) =~= Seq::<spec_fn(Seq<char>, Seq<char>) -> bool>::empty());
            proof {
                lemma_chain_empty(input@, r@);
            }
            r
        },
        StageList::Cons(s, rest) => {
            let mid = s.apply(input);
            let out = run_list(rest, mid.as_str());
            proof {
                let st = list_stages(*l);
                assert(st.drop_first() =~= list_stages(**rest));
                lemma_chain_prepend(st, input@, mid@, out@);
            }
            out
        },
    }
}

pub struct MiddlewareChain {
    middlewares: StageList<Box<dyn Stage>>,
}

impl MiddlewareChain {
    /// The stages in running order (the one added last first), each as the
    /// relation it computes.
    pub closed spec fn stages(&self) -> Seq<spec_fn(Seq<char>, Seq<char>) -> bool> {
        list_stages(self.middlewares)
    }

    /// An empty chain.
    pub fn new() -> (r: Self)
        ensures
            r.stages() == Seq::<spec_fn(Seq<char>, Seq<char>) -> bool>::empty(),
    {
        MiddlewareChain { middlewares: StageList::Nil }
    }

    /// Adds a stage; it runs before the stages already in the chain.
    pub fn add<F>(&mut self, middleware: F) where F: Fn(&str) -> String + Send + Sync + 'static
        requires
            forall|x: &str| call_requires(middleware, (x,)),
        ensures
            final(self).stages().len() == old(self).stages().len() + 1,
            final(self).stages().drop_first() == old(self).stages(),
            forall|a: Seq<char>, b: Seq<char>|
                #![trigger (final(self).stages()[0])(a, b)]
                (final(self).stages()[0])(a, b) <==> exists|x: &str, r: String|
                    x@ == a && r@ == b && call_ensures(middleware, (x,), r),
    {
        let stage = ClosureStage { f: middleware };
        let ghost g = stage;
        let boxed: Box<dyn Stage> = Box::new(stage);
        assert forall|a: Seq<char>, b: Seq<char>| #[trigger] boxed.transforms(a, b) == g.transforms(a, b) by {}
        let ghost bg = boxed;
        let mut rest = StageList::Nil;
        std::mem::swap(&mut rest, &mut self.middlewares);
        let ghost rest_g = rest;
        let node = StageList::Cons(boxed, Box::new(rest));
        assert(node->0 == bg);
        self.middlewares = node;
        assert(self.stages().drop_first() =~= list_stages(rest_g));
        assert(self.middlewares->0 == bg);
        assert forall|a: Seq<char>, b: Seq<char>|
            #![trigger (self.stages()[0])(a, b)]
            (self.stages()[0])(a, b) <==> exists|x: &str, r: String|
                x@ == a && r@ == b && call_ensures(middleware, (x,), r) by {
            lemma_first_stage(self.middlewares, a, b);
            assert(bg.transforms(a, b) == g.transforms(a, b));
            assert(g.f == middleware);
        }
    }

    /// Runs `input` through every stage, the one added last first.
    pub fn execute(&self, input: &str) -> (r: String)
        ensures
            chain_relates(self.stages(), input@, r@),
    {
        run_list(&self.middlewares, input)
    }
}

/// Adding a stage puts it in front: the grown chain turns `input` into
/// `output` exactly when the new stage turns `input` into some text that
/// the old chain turns into `output`.
pub proof fn law_added_stage_runs_first(
    grown: Seq<spec_fn(Seq<char>, Seq<char>) -> bool>,
    old_stages: Seq<spec_fn(Seq<char>, Seq<char>) -> bool>,
    input: Seq<char>,
    output: Seq<char>,
)
    requires
        grown.len() == old_stages.len() + 1,
        grown.drop_first() == old_stages,
    ensures
        chain_relates(grown, input, output) <==> exists|mid: Seq<char>|
            #[trigger] (grown[0])(input, mid) && chain_relates(old_stages, mid, output),
{
    if chain_relates(grown, input, output) {
        lemma_chain_split_first(grown, input, output);
    }
    if exists|mid: Seq<char>| #[trigger] (grown[0])(input, mid) && chain_relates(old_stages, mid, output) {
        let mid = choose|mid: Seq<char>| #[trigger] (grown[0])(input, mid) && chain_relates(old_stages, mid, output);
        lemma_chain_prepend(grown, input, mid, output);
    }
}

} // verus!
