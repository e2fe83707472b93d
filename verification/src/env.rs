//! The environment: the bindings of names to expressions, and the built-in
//! operations that it starts with.

use vstd::prelude::*;
use vstd::string::StringExecFns;
use crate::exp::{LisperExp, NativeOp, Term};
use crate::numbers::{
    compare, holds, ArithOp, Host, Numerics, Relation, TrigOp, E_BITS, PI_BITS, TWO_PI_BITS,
    ZERO_BITS,
};
use crate::text::same_text;

verus! {

/// Bindings as a mathematical map from names to values.
pub type Bindings = Map<Seq<char>, Term>;

/// The context in which an expression is evaluated: each name with the
/// expression bound to it. Of two entries with one name the earlier counts.
#[derive(Debug)]
pub struct LisperEnv {
    pub data: Vec<(String, LisperExp)>,
}

impl LisperEnv {
    /// Entry `i` is the first one that is named `key`.
    pub open spec fn first_at(&self, key: Seq<char>, i: int) -> bool {
        &&& 0 <= i < self.data@.len()
        &&& self.data@[i].0@ == key
        &&& forall|j: int| 0 <= j < i ==> self.data@[j].0@ != key
    }

    /// The bindings that the entries make.
    pub open spec fn bindings(&self) -> Bindings {
        Map::new(
            |key: Seq<char>| exists|i: int| self.first_at(key, i),
            |key: Seq<char>| self.data@[choose|i: int| self.first_at(key, i)].1@,
        )
    }

    proof fn lemma_bound(&self, key: Seq<char>, i: int)
        requires
            self.first_at(key, i),
        ensures
            self@.contains_key(key),
            self@[key] == self.data@[i].1@,
    {
        let j = choose|j: int| self.first_at(key, j);
        assert(i == j);
    }

    proof fn lemma_unbound(&self, key: Seq<char>)
        requires
            forall|j: int| 0 <= j < self.data@.len() ==> self.data@[j].0@ != key,
        ensures
            !self@.contains_key(key),
    {
    }

    proof fn lemma_same_names(&self, other: &LisperEnv, n: int)
        requires
            n <= self.data@.len(),
            n <= other.data@.len(),
            forall|j: int| 0 <= j < n ==> self.data@[j].0@ == other.data@[j].0@,
        ensures
            forall|key: Seq<char>, i: int|
                i < n ==> (self.first_at(key, i) <==> other.first_at(key, i)),
    {
        assert forall|key: Seq<char>, i: int| i < n implies (self.first_at(key, i)
            <==> other.first_at(key, i)) by {
            if 0 <= i {
                assert(self.data@[i].0@ == other.data@[i].0@);
                assert forall|j: int| 0 <= j < i implies self.data@[j].0@
                    == other.data@[j].0@ by {}
            }
        }
    }

    proof fn lemma_same_entries(&self, other: &LisperEnv)
        requires
            self.data@.len() == other.data@.len(),
            forall|j: int|
                0 <= j < self.data@.len() ==> self.data@[j].0@ == other.data@[j].0@
                    && self.data@[j].1@ == other.data@[j].1@,
        ensures
            self@ == other@,
    {
        self.lemma_same_names(other, self.data@.len() as int);
        assert forall|key: Seq<char>| self@.contains_key(key) implies other@[key] == self@[key] by {
            let i = choose|i: int| self.first_at(key, i);
            self.lemma_bound(key, i);
            other.lemma_bound(key, i);
        }
        assert(self@ =~= other@);
    }

    /// An environment without bindings.
    pub fn new() -> (env: LisperEnv)
        ensures
            env@ == Map::<Seq<char>, Term>::empty(),
    {
        let env = LisperEnv { data: Vec::new() };
        assert(env@ =~= Map::<Seq<char>, Term>::empty());
        env
    }

    /// The index of the first entry named `name`, if there is one.
    fn position(&self, name: &str) -> (found: Option<usize>)
        ensures
            match found {
                Some(i) => self.first_at(name@, i as int),
                None => forall|j: int| 0 <= j < self.data@.len() ==> self.data@[j].0@ != name@,
            },
    {
        let mut i: usize = 0;
        while i < self.data.len()
            invariant
                i <= self.data.len(),
                forall|j: int| 0 <= j < i ==> self.data@[j].0@ != name@,
            decreases self.data.len() - i,
        {
            if same_text(self.data[i].0.as_str(), name) {
                return Some(i);
            }
            i += 1;
        }
        None
    }

    /// The expression bound to `name`, if the name is bound.
    pub fn get(&self, name: &str) -> (found: Option<&LisperExp>)
        ensures
            match found {
                Some(value) => self@.contains_key(name@) && self@[name@] == value@,
                None => !self@.contains_key(name@),
            },
    {
        match self.position(name) {
            Some(i) => {
                proof {
                    self.lemma_bound(name@, i as int);
                }
                Some(&self.data[i].1)
            },
            None => {
                proof {
                    self.lemma_unbound(name@);
                }
                None
            },
        }
    }

    /// Binds `name` to `value`, in place of what the name was bound to.
    pub fn insert(&mut self, name: String, value: LisperExp)
        ensures
            final(self)@ == old(self)@.insert(name@, value@),
    {
        let ghost before = *self;
        let ghost key = name@;
        let ghost bound = value@;
        match self.position(name.as_str()) {
            Some(i) => {
                self.data.set(i, (name, value));
                proof {
                    assert forall|j: int| 0 <= j < before.data@.len() implies self.data@[j].0@
                        == before.data@[j].0@ by {}
                    self.lemma_same_names(&before, before.data@.len() as int);
                    assert forall|k: Seq<char>| #[trigger]
                        before@.insert(key, bound).contains_key(k) implies self@.contains_key(k)
                        && self@[k] == before@.insert(key, bound)[k] by {
                        if k == key {
                            self.lemma_bound(k, i as int);
                        } else {
                            let j = choose|j: int| before.first_at(k, j);
                            before.lemma_bound(k, j);
                            self.lemma_bound(k, j);
                        }
                    }
                    assert(self@ =~= before@.insert(key, bound));
                }
            },
            None => {
                self.data.push((name, value));
                proof {
                    let n = before.data@.len() as int;
                    assert forall|j: int| 0 <= j < n implies self.data@[j].0@
                        == before.data@[j].0@ by {}
                    self.lemma_same_names(&before, n);
                    assert(self.first_at(key, n));
                    assert forall|k: Seq<char>| #[trigger]
                        before@.insert(key, bound).contains_key(k) implies self@.contains_key(k)
                        && self@[k] == before@.insert(key, bound)[k] by {
                        if k == key {
                            self.lemma_bound(k, n);
                        } else {
                            let j = choose|j: int| before.first_at(k, j);
                            before.lemma_bound(k, j);
                            self.lemma_bound(k, j);
                        }
                    }
                    assert forall|k: Seq<char>| #[trigger] self@.contains_key(k) implies before@.insert(
                        key,
                        bound,
                    ).contains_key(k) by {
                        if k != key {
                            let j = choose|j: int| self.first_at(k, j);
                            assert(before.first_at(k, j));
                        }
                    }
                    assert(self@ =~= before@.insert(key, bound));
                }
            },
        }
    }

    /// An independent copy of the environment.
    pub fn duplicate(&self) -> (copy: LisperEnv)
        ensures
            copy@ == self@,
    {
        let mut data: Vec<(String, LisperExp)> = Vec::new();
        let mut i: usize = 0;
        while i < self.data.len()
            invariant
                i <= self.data.len(),
                data.len() == i,
                forall|j: int|
                    0 <= j < i ==> data@[j].0@ == self.data@[j].0@ && data@[j].1@
                        == self.data@[j].1@,
            decreases self.data.len() - i,
        {
            data.push((self.data[i].0.clone(), self.data[i].1.duplicate()));
            i += 1;
        }
        let copy = LisperEnv { data };
        proof {
            copy.lemma_same_entries(self);
        }
        copy
    }
}

impl Clone for LisperEnv {
    fn clone(&self) -> (copy: LisperEnv)
        ensures
            copy@ == self@,
    {
        self.duplicate()
    }
}

impl View for LisperEnv {
    type V = Bindings;

    open spec fn view(&self) -> Bindings {
        self.bindings()
    }
}

/// The items of a list; nothing, of any other expression.
pub open spec fn items_of(t: Term) -> Seq<Term> {
    match t {
        Term::List(items) => items,
        _ => Seq::empty(),
    }
}

/// The numbers among `args` folded from the left with `op`. The fold starts
/// from the first argument where that is a number, and from zero where it is
/// not; what is not a number is passed over.
pub open spec fn fold_arith(h: Numerics, op: ArithOp, args: Seq<Term>) -> u64
    decreases args.len(),
{
    if args.len() == 0 {
        ZERO_BITS
    } else {
        let so_far = fold_arith(h, op, args.drop_last());
        match args.last() {
            Term::Number(n) => if args.len() == 1 {
                n
            } else {
                (h.arith)(op, so_far, n)
            },
            _ => so_far,
        }
    }
}

/// Where a chain of comparisons stands: the number seen last, if one was
/// seen, and what the last comparison found.
pub struct Chain {
    pub previous: Option<u64>,
    pub verdict: bool,
}

/// The numbers among `args` compared in their order, each with the number
/// before it. The first number, wherever it stands, is only remembered; what
/// is not a number is passed over. The verdict is that of the last
/// comparison, and false as long as two numbers have not been compared.
pub open spec fn fold_order(relation: Relation, args: Seq<Term>) -> Chain
    decreases args.len(),
{
    if args.len() == 0 {
        Chain { previous: None, verdict: false }
    } else {
        let so_far = fold_order(relation, args.drop_last());
        match args.last() {
            Term::Number(n) => match so_far.previous {
                None => Chain { previous: Some(n), verdict: false },
                Some(p) => Chain { previous: Some(n), verdict: holds(relation, p, n) },
            },
            _ => so_far,
        }
    }
}

/// How many of `args` are numbers.
pub open spec fn count_numbers(args: Seq<Term>) -> nat
    decreases args.len(),
{
    if args.len() == 0 {
        0
    } else {
        count_numbers(args.drop_last()) + if args.last() is Number {
            1nat
        } else {
            0nat
        }
    }
}

/// `op` of the first argument where that is a number, and zero where it is
/// not or is missing.
pub open spec fn first_trig(h: Numerics, op: TrigOp, args: Seq<Term>) -> u64 {
    if args.len() > 0 && args[0] is Number {
        (h.trig)(op, args[0]->Number_0)
    } else {
        ZERO_BITS
    }
}

/// What a built-in operation returns for its evaluated arguments.
pub open spec fn native_result(h: Numerics, op: NativeOp, args: Seq<Term>) -> Term {
    match op {
        NativeOp::Arith(a) => Term::Number(fold_arith(h, a, args)),
        NativeOp::Order(r) => Term::Bool(fold_order(r, args).verdict),
        NativeOp::Trig(t) => Term::Number(first_trig(h, t, args)),
    }
}

/// Folds the numbers of a list with a binary operation of the host.
pub fn fold_numbers<A, T, R, P>(op: ArithOp, args: &LisperExp, host: &Host<A, T, R, P>) -> (total:
    u64) where
    A: Fn(ArithOp, u64, u64) -> u64,
    T: Fn(TrigOp, u64) -> u64,
    R: Fn(u64) -> String,
    P: Fn(&str) -> Option<u64>,

    requires
        host.wf(),
    ensures
        total == fold_arith(host.model(), op, items_of(args@)),
{
    let mut total: u64 = ZERO_BITS;
    if let LisperExp::List(list) = args {
        let ghost items = items_of(args@);
        proof {
            LisperExp::lemma_list_term(*list);
        }
        let mut i: usize = 0;
        while i < list.len()
            invariant
                host.wf(),
                i <= list.len(),
                items.len() == list@.len(),
                forall|j: int| 0 <= j < items.len() ==> items[j] == list@[j]@,
                total == fold_arith(host.model(), op, items.take(i as int)),
            decreases list.len() - i,
        {
            proof {
                assert(items.take(i + 1).drop_last() =~= items.take(i as int));
            }
            if let LisperExp::Number(n) = &list[i] {
                if i == 0 {
                    total = *n;
                } else {
                    total = host.binary(op, total, *n);
                }
            }
            i += 1;
        }
        assert(items.take(i as int) =~= items);
    }
    total
}

/// Compares the numbers of a list pairwise, in their order, and returns
/// what the last comparison found: false where the list holds fewer than two
/// numbers.
pub fn compare_numbers(relation: Relation, args: &LisperExp) -> (verdict: bool)
    ensures
        verdict == fold_order(relation, items_of(args@)).verdict,
{
    let mut previous: Option<u64> = None;
    let mut verdict = false;
    if let LisperExp::List(list) = args {
        let ghost items = items_of(args@);
        proof {
            LisperExp::lemma_list_term(*list);
        }
        let mut i: usize = 0;
        while i < list.len()
            invariant
                i <= list.len(),
                items.len() == list@.len(),
                forall|j: int| 0 <= j < items.len() ==> items[j] == list@[j]@,
                previous == fold_order(relation, items.take(i as int)).previous,
                verdict == fold_order(relation, items.take(i as int)).verdict,
            decreases list.len() - i,
        {
            proof {
                assert(items.take(i + 1).drop_last() =~= items.take(i as int));
            }
            if let LisperExp::Number(n) = &list[i] {
                verdict = match previous {
                    None => false,
                    Some(p) => compare(relation, p, *n),
                };
                previous = Some(*n);
            }
            i += 1;
        }
        assert(items.take(i as int) =~= items);
    }
    verdict
}

/// Applies a unary operation of the host to the first item of a list.
pub fn apply_trig<A, T, R, P>(op: TrigOp, args: &LisperExp, host: &Host<A, T, R, P>) -> (result:
    u64) where
    A: Fn(ArithOp, u64, u64) -> u64,
    T: Fn(TrigOp, u64) -> u64,
    R: Fn(u64) -> String,
    P: Fn(&str) -> Option<u64>,

    requires
        host.wf(),
    ensures
        result == first_trig(host.model(), op, items_of(args@)),
{
    if let LisperExp::List(list) = args {
        proof {
            LisperExp::lemma_list_term(*list);
        }
        if list.len() > 0 {
            if let LisperExp::Number(n) = &list[0] {
                return host.unary(op, *n);
            }
        }
    }
    ZERO_BITS
}

impl NativeOp {
    /// Applies the operation to a list of evaluated arguments.
    pub fn apply<A, T, R, P>(&self, args: &LisperExp, host: &Host<A, T, R, P>) -> (result:
        LisperExp) where
        A: Fn(ArithOp, u64, u64) -> u64,
        T: Fn(TrigOp, u64) -> u64,
        R: Fn(u64) -> String,
        P: Fn(&str) -> Option<u64>,

        requires
            host.wf(),
        ensures
            result@ == native_result(host.model(), *self, items_of(args@)),
    {
        match self {
            NativeOp::Arith(op) => LisperExp::Number(fold_numbers(*op, args, host)),
            NativeOp::Order(relation) => LisperExp::Bool(compare_numbers(*relation, args)),
            NativeOp::Trig(op) => LisperExp::Number(apply_trig(*op, args, host)),
        }
    }
}

/// The bindings of the root environment: the arithmetic operations and
/// their aliases, the comparisons, the trigonometric functions and the
/// constants.
pub open spec fn default_bindings() -> Bindings {
    Map::<Seq<char>, Term>::empty().insert("+"@, Term::Func(NativeOp::Arith(ArithOp::Add))).insert(
        "-"@,
        Term::Func(NativeOp::Arith(ArithOp::Sub)),
    ).insert("sub"@, Term::Func(NativeOp::Arith(ArithOp::Sub))).insert(
        "*"@,
        Term::Func(NativeOp::Arith(ArithOp::Mul)),
    ).insert("mul"@, Term::Func(NativeOp::Arith(ArithOp::Mul))).insert(
        "/"@,
        Term::Func(NativeOp::Arith(ArithOp::Div)),
    ).insert("div"@, Term::Func(NativeOp::Arith(ArithOp::Div))).insert(
        "%"@,
        Term::Func(NativeOp::Arith(ArithOp::Rem)),
    ).insert("mod"@, Term::Func(NativeOp::Arith(ArithOp::Rem))).insert(
        "<"@,
        Term::Func(NativeOp::Order(Relation::Less)),
    ).insert(">"@, Term::Func(NativeOp::Order(Relation::More))).insert(
        "="@,
        Term::Func(NativeOp::Order(Relation::Equal)),
    ).insert("=="@, Term::Func(NativeOp::Order(Relation::Equal))).insert(
        "<="@,
        Term::Func(NativeOp::Order(Relation::LessOrEqual)),
    ).insert(">="@, Term::Func(NativeOp::Order(Relation::MoreOrEqual))).insert(
        "sin"@,
        Term::Func(NativeOp::Trig(TrigOp::Sin)),
    ).insert("cos"@, Term::Func(NativeOp::Trig(TrigOp::Cos))).insert(
        "tan"@,
        Term::Func(NativeOp::Trig(TrigOp::Tan)),
    ).insert("pi"@, Term::Number(PI_BITS)).insert("two_pi"@, Term::Number(TWO_PI_BITS)).insert(
        "e"@,
        Term::Number(E_BITS),
    )
}

/// The root environment, with the built-in operations and constants bound.
pub fn create_default_env() -> (env: LisperEnv)
    ensures
        env@ == default_bindings(),
{
    let mut env = LisperEnv::new();
    env.insert(String::from_str("+"), LisperExp::Func(NativeOp::Arith(ArithOp::Add)));
    env.insert(String::from_str("-"), LisperExp::Func(NativeOp::Arith(ArithOp::Sub)));
    env.insert(String::from_str("sub"), LisperExp::Func(NativeOp::Arith(ArithOp::Sub)));
    env.insert(String::from_str("*"), LisperExp::Func(NativeOp::Arith(ArithOp::Mul)));
    env.insert(String::from_str("mul"), LisperExp::Func(NativeOp::Arith(ArithOp::Mul)));
    env.insert(String::from_str("/"), LisperExp::Func(NativeOp::Arith(ArithOp::Div)));
    env.insert(String::from_str("div"), LisperExp::Func(NativeOp::Arith(ArithOp::Div)));
    env.insert(String::from_str("%"), LisperExp::Func(NativeOp::Arith(ArithOp::Rem)));
    env.insert(String::from_str("mod"), LisperExp::Func(NativeOp::Arith(ArithOp::Rem)));
    env.insert(String::from_str("<"), LisperExp::Func(NativeOp::Order(Relation::Less)));
    env.insert(String::from_str(">"), LisperExp::Func(NativeOp::Order(Relation::More)));
    env.insert(String::from_str("="), LisperExp::Func(NativeOp::Order(Relation::Equal)));
    env.insert(String::from_str("=="), LisperExp::Func(NativeOp::Order(Relation::Equal)));
    env.insert(String::from_str("<="), LisperExp::Func(NativeOp::Order(Relation::LessOrEqual)));
    env.insert(String::from_str(">="), LisperExp::Func(NativeOp::Order(Relation::MoreOrEqual)));
    env.insert(String::from_str("sin"), LisperExp::Func(NativeOp::Trig(TrigOp::Sin)));
    env.insert(String::from_str("cos"), LisperExp::Func(NativeOp::Trig(TrigOp::Cos)));
    env.insert(String::from_str("tan"), LisperExp::Func(NativeOp::Trig(TrigOp::Tan)));
    env.insert(String::from_str("pi"), LisperExp::Number(PI_BITS));
    env.insert(String::from_str("two_pi"), LisperExp::Number(TWO_PI_BITS));
    env.insert(String::from_str("e"), LisperExp::Number(E_BITS));
    env
}

} // verus!
