use vstd::prelude::*;

use crate::registry::NamedHandles;

verus! {

/// The handle of a registered guard callback.
pub type StateConditionId = u64;

/// A boolean expression over named guard conditions.
///
/// `And` and `Or` hold at least two children when built by [`CombinationCondition::and`],
/// [`CombinationCondition::or`], the `add_*` builders or the parser.
#[derive(Debug, PartialEq, Eq)]
pub enum CombinationCondition {
    And(Vec<CombinationCondition>),
    Or(Vec<CombinationCondition>),
    Not(Box<CombinationCondition>),
    Id(String),
}

/// The mathematical value of a [`CombinationCondition`].
pub enum Cond {
    And(Seq<Cond>),
    Or(Seq<Cond>),
    Not(Box<Cond>),
    Id(Seq<char>),
}

/// The values of `s[i..]`.
pub open spec fn views(s: Seq<CombinationCondition>, i: nat) -> Seq<Cond>
    decreases s, s.len() - i,
{
    if i < s.len() {
        seq![s[i as int].view()] + views(s, i + 1)
    } else {
        Seq::empty()
    }
}

impl CombinationCondition {
    pub open spec fn view(&self) -> Cond
        decreases self, 0nat,
    {
        match self {
            CombinationCondition::And(v) => Cond::And(views(v@, 0)),
            CombinationCondition::Or(v) => Cond::Or(views(v@, 0)),
            CombinationCondition::Not(b) => Cond::Not(Box::new((**b).view())),
            CombinationCondition::Id(s) => Cond::Id(s@),
        }
    }
}

/// `views(s, i)` holds the value of each element of `s[i..]`, in order.
pub proof fn lemma_views(s: Seq<CombinationCondition>, i: nat)
    requires
        i <= s.len(),
    ensures
        views(s, i).len() == s.len() - i,
        forall|k: int| 0 <= k < s.len() - i ==> #[trigger] views(s, i)[k] == s[i + k]@,
    decreases s.len() - i,
{
    if i < s.len() {
        lemma_views(s, i + 1);
        assert forall|k: int| 0 <= k < s.len() - i implies #[trigger] views(s, i)[k] == s[i + k]@ by {
            if k > 0 {
                assert(views(s, i)[k] == views(s, i + 1)[k - 1]);
            }
        }
    }
}

/// The views of every element of `s`, in order.
pub open spec fn all_views(s: Seq<CombinationCondition>) -> Seq<Cond> {
    views(s, 0)
}

proof fn lemma_all_views_concat(a: Seq<CombinationCondition>, b: Seq<CombinationCondition>)
    ensures
        all_views(a + b) == all_views(a) + all_views(b),
{
    lemma_views(a, 0);
    lemma_views(b, 0);
    lemma_views(a + b, 0);
    assert(all_views(a + b) =~= all_views(a) + all_views(b));
}

/// `And`, `Or` and `Not` as character sequences.
pub open spec fn kw_and() -> Seq<char> {
    seq!['A', 'n', 'd']
}

pub open spec fn kw_or() -> Seq<char> {
    seq!['O', 'r']
}

pub open spec fn kw_not() -> Seq<char> {
    seq!['N', 'o', 't']
}

/// The canonical text of a condition: `And(a, b)`, `Or(a, b, c)`, `Not(a)`, `a`.
pub open spec fn fmt(c: Cond) -> Seq<char>
    decreases c, 0nat,
{
    match c {
        Cond::And(cs) => kw_and() + seq!['('] + fmt_list(cs, 0) + seq![')'],
        Cond::Or(cs) => kw_or() + seq!['('] + fmt_list(cs, 0) + seq![')'],
        Cond::Not(b) => kw_not() + seq!['('] + fmt(*b) + seq![')'],
        Cond::Id(name) => name,
    }
}

/// The text of `cs[i..]`, separated by `", "`.
pub open spec fn fmt_list(cs: Seq<Cond>, i: nat) -> Seq<char>
    decreases cs, cs.len() - i,
{
    if i >= cs.len() {
        Seq::empty()
    } else if i + 1 == cs.len() {
        fmt(cs[i as int])
    } else {
        fmt(cs[i as int]) + seq![',', ' '] + fmt_list(cs, i + 1)
    }
}

/// The operands that `a` brings to an `And`: its children if it is an
/// `And`, itself otherwise.
pub open spec fn and_kids(a: Cond) -> Seq<Cond> {
    match a {
        Cond::And(v) => v,
        _ => seq![a],
    }
}

/// The operands that `a` brings to an `Or`.
pub open spec fn or_kids(a: Cond) -> Seq<Cond> {
    match a {
        Cond::Or(v) => v,
        _ => seq![a],
    }
}

/// `a` and `b` joined by `And`; an `And` on either side is flattened into
/// the result.
pub open spec fn and_of(a: Cond, b: Cond) -> Cond {
    Cond::And(and_kids(a) + and_kids(b))
}

/// `a` and `b` joined by `Or`; an `Or` on either side is flattened into
/// the result.
pub open spec fn or_of(a: Cond, b: Cond) -> Cond {
    Cond::Or(or_kids(a) + or_kids(b))
}

/// Joining with `And` is associative: nested joins give one flat `And`.
pub proof fn lemma_and_of_associative(a: Cond, b: Cond, c: Cond)
    ensures
        and_of(and_of(a, b), c) == and_of(a, and_of(b, c)),
{
    assert(and_kids(a) + and_kids(b) + and_kids(c) =~= and_kids(a) + (and_kids(b) + and_kids(c)));
}

/// Joining with `Or` is associative in the same way.
pub proof fn lemma_or_of_associative(a: Cond, b: Cond, c: Cond)
    ensures
        or_of(or_of(a, b), c) == or_of(a, or_of(b, c)),
{
    assert(or_kids(a) + or_kids(b) + or_kids(c) =~= or_kids(a) + (or_kids(b) + or_kids(c)));
}

/// The negation of `a`; a double negation cancels.
pub open spec fn not_of(a: Cond) -> Cond {
    match a {
        Cond::Not(x) => *x,
        _ => Cond::Not(Box::new(a)),
    }
}

impl CombinationCondition {
    /// A single named condition.
    pub fn new(name: &str) -> (r: Self)
        ensures
            r@ == Cond::Id(name@),
    {
        CombinationCondition::Id(name.to_owned())
    }

    /// `And` over the given conditions, which must be at least two.
    pub fn and(conditions: Vec<CombinationCondition>) -> (r: Self)
        requires
            conditions@.len() >= 2,
        ensures
            r@ == Cond::And(all_views(conditions@)),
    {
        CombinationCondition::And(conditions)
    }

    /// `Or` over the given conditions, which must be at least two.
    pub fn or(conditions: Vec<CombinationCondition>) -> (r: Self)
        requires
            conditions@.len() >= 2,
        ensures
            r@ == Cond::Or(all_views(conditions@)),
    {
        CombinationCondition::Or(conditions)
    }

    /// The negation of `condition`; a double negation cancels.
    pub fn not(condition: CombinationCondition) -> (r: Self)
        ensures
            r@ == not_of(condition@),
    {
        condition.add_not()
    }

    fn into_and_kids(self) -> (r: Vec<CombinationCondition>)
        ensures
            all_views(r@) == and_kids(self@),
    {
        match self {
            CombinationCondition::And(v) => v,
            other => {
                let v = vec![other];
                proof {
                    lemma_views(v@, 0);
                    assert(all_views(v@) =~= seq![v@[0]@]);
                }
                v
            },
        }
    }

    fn into_or_kids(self) -> (r: Vec<CombinationCondition>)
        ensures
            all_views(r@) == or_kids(self@),
    {
        match self {
            CombinationCondition::Or(v) => v,
            other => {
                let v = vec![other];
                proof {
                    lemma_views(v@, 0);
                    assert(all_views(v@) =~= seq![v@[0]@]);
                }
                v
            },
        }
    }

    /// `self And condition`; an `And` on either side is flattened, so
    /// `a.add_and(b).add_and(c.add_and(d))` is one four-way `And`.
    pub fn add_and(self, condition: CombinationCondition) -> (r: Self)
        ensures
            r@ == and_of(self@, condition@),
    {
        let mut l = self.into_and_kids();
        let mut r = condition.into_and_kids();
        let ghost (l0, r0) = (l@, r@);
        l.append(&mut r);
        proof {
            lemma_all_views_concat(l0, r0);
        }
        CombinationCondition::And(l)
    }

    /// `self Or condition`; an `Or` on either side is flattened.
    pub fn add_or(self, condition: CombinationCondition) -> (r: Self)
        ensures
            r@ == or_of(self@, condition@),
    {
        let mut l = self.into_or_kids();
        let mut r = condition.into_or_kids();
        let ghost (l0, r0) = (l@, r@);
        l.append(&mut r);
        proof {
            lemma_all_views_concat(l0, r0);
        }
        CombinationCondition::Or(l)
    }

    /// The negation of `self`; a double negation cancels.
    pub fn add_not(self) -> (r: Self)
        ensures
            r@ == not_of(self@),
    {
        match self {
            CombinationCondition::Not(b) => *b,
            other => CombinationCondition::Not(Box::new(other)),
        }
    }

    fn write_to(&self, out: &mut String)
        ensures
            final(out)@ == old(out)@ + fmt(self@),
        decreases self, 0nat,
    {
        proof {
            reveal_strlit("And(");
            reveal_strlit("Or(");
            reveal_strlit("Not(");
            reveal_strlit(")");
        }
        match self {
            CombinationCondition::And(v) => {
                out.append("And(");
                Self::write_list(v, 0, out);
                out.append(")");
            },
            CombinationCondition::Or(v) => {
                out.append("Or(");
                Self::write_list(v, 0, out);
                out.append(")");
            },
            CombinationCondition::Not(b) => {
                out.append("Not(");
                b.write_to(out);
                out.append(")");
            },
            CombinationCondition::Id(name) => {
                out.append(name.as_str());
            },
        }
        proof {
            assert(final(out)@ =~= old(out)@ + fmt(self@));
        }
    }

    fn write_list(v: &Vec<CombinationCondition>, i: usize, out: &mut String)
        requires
            i <= v@.len(),
        ensures
            final(out)@ == old(out)@ + fmt_list(all_views(v@), i as nat),
        decreases v, v@.len() - i,
    {
        proof {
            lemma_views(v@, 0);
            reveal_strlit(", ");
        }
        let n = v.len();
        if i < n {
            v[i].write_to(out);
            if i + 1 < n {
                out.append(", ");
                Self::write_list(v, i + 1, out);
            }
        }
        proof {
            assert(final(out)@ =~= old(out)@ + fmt_list(all_views(v@), i as nat));
        }
    }

    /// The canonical text of the condition.
    pub fn to_string(&self) -> (r: String)
        ensures
            r@ == fmt(self@),
    {
        let mut s = String::new();
        self.write_to(&mut s);
        proof {
            assert(s@ =~= fmt(self@));
        }
        s
    }
}

impl Default for CombinationCondition {
    fn default() -> (r: Self)
        ensures
            r@ == Cond::Id(Seq::empty()),
    {
        CombinationCondition::Id(String::new())
    }
}

/// A guard callback that failed to run.
#[derive(Debug, Clone, Copy, PartialEq, Eq, Structural)]
pub struct CallbackError {
    /// The callback that failed.
    pub condition: StateConditionId,
}

/// A condition whose names are bound to callback handles.
#[derive(Debug, PartialEq, Eq)]
pub enum CombinationConditionId {
    And(Vec<CombinationConditionId>),
    Or(Vec<CombinationConditionId>),
    Not(Box<CombinationConditionId>),
    Id(StateConditionId),
}

/// The mathematical value of a [`CombinationConditionId`].
pub enum CondId {
    And(Seq<CondId>),
    Or(Seq<CondId>),
    Not(Box<CondId>),
    Id(StateConditionId),
}

pub open spec fn id_views(s: Seq<CombinationConditionId>, i: nat) -> Seq<CondId>
    decreases s, s.len() - i,
{
    if i < s.len() {
        seq![s[i as int].view()] + id_views(s, i + 1)
    } else {
        Seq::empty()
    }
}

impl CombinationConditionId {
    pub open spec fn view(&self) -> CondId
        decreases self, 0nat,
    {
        match self {
            CombinationConditionId::And(v) => CondId::And(id_views(v@, 0)),
            CombinationConditionId::Or(v) => CondId::Or(id_views(v@, 0)),
            CombinationConditionId::Not(b) => CondId::Not(Box::new((**b).view())),
            CombinationConditionId::Id(id) => CondId::Id(*id),
        }
    }
}

/// The bound form of `c`, when every name of `c` is in `m`.
pub open spec fn resolve(c: Cond, m: Map<Seq<char>, StateConditionId>) -> Option<CondId>
    decreases c, 0nat,
{
    match c {
        Cond::And(cs) => match resolve_list(cs, 0, m) {
            Some(ids) => Some(CondId::And(ids)),
            None => None,
        },
        Cond::Or(cs) => match resolve_list(cs, 0, m) {
            Some(ids) => Some(CondId::Or(ids)),
            None => None,
        },
        Cond::Not(b) => match resolve(*b, m) {
            Some(id) => Some(CondId::Not(Box::new(id))),
            None => None,
        },
        Cond::Id(n) => if m.contains_key(n) {
            Some(CondId::Id(m[n]))
        } else {
            None
        },
    }
}

pub open spec fn resolve_list(cs: Seq<Cond>, i: nat, m: Map<Seq<char>, StateConditionId>) -> Option<
    Seq<CondId>,
>
    decreases cs, cs.len() - i,
{
    if i >= cs.len() {
        Some(Seq::empty())
    } else {
        match resolve(cs[i as int], m) {
            None => None,
            Some(a) => match resolve_list(cs, i + 1, m) {
                Some(r) => Some(seq![a] + r),
                None => None,
            },
        }
    }
}

/// Where an evaluation stands, given the outcomes of the callbacks run so far.
pub enum Evaluation {
    /// The value of the condition, and how many outcomes it read.
    Done(Result<bool, CallbackError>, nat),
    /// The next callback to run.
    Needs(StateConditionId),
}

/// Evaluates `c` reading callback outcomes from position `used` of `outs`,
/// in invocation order. `And` stops at the first `false`, `Or` at the first
/// `true`, both at the first error; `Not` negates its child.
pub open spec fn eval(c: CondId, outs: Seq<Result<bool, CallbackError>>, used: nat) -> Evaluation
    decreases c, 0nat,
{
    match c {
        CondId::Id(id) => if used < outs.len() {
            Evaluation::Done(outs[used as int], used + 1)
        } else {
            Evaluation::Needs(id)
        },
        CondId::Not(b) => match eval(*b, outs, used) {
            Evaluation::Done(Ok(x), u) => Evaluation::Done(Ok(!x), u),
            other => other,
        },
        CondId::And(cs) => eval_all(cs, 0, true, outs, used),
        CondId::Or(cs) => eval_all(cs, 0, false, outs, used),
    }
}

/// Evaluates `cs[i..]` joined by `And` (`conj`) or `Or` (`!conj`).
pub open spec fn eval_all(
    cs: Seq<CondId>,
    i: nat,
    conj: bool,
    outs: Seq<Result<bool, CallbackError>>,
    used: nat,
) -> Evaluation
    decreases cs, cs.len() - i,
{
    if i >= cs.len() {
        Evaluation::Done(Ok(conj), used)
    } else {
        match eval(cs[i as int], outs, used) {
            Evaluation::Done(Ok(x), u) => if x == conj {
                eval_all(cs, i + 1, conj, outs, u)
            } else {
                Evaluation::Done(Ok(x), u)
            },
            other => other,
        }
    }
}

/// The result of an evaluation step.
#[derive(Debug, Clone, Copy, PartialEq, Eq)]
pub enum EvalStep {
    /// The value of the condition, and how many outcomes it read.
    Done(Result<bool, CallbackError>, usize),
    /// The next callback to run.
    Needs(StateConditionId),
}

impl EvalStep {
    pub open spec fn view(&self) -> Evaluation {
        match *self {
            EvalStep::Done(r, u) => Evaluation::Done(r, u as nat),
            EvalStep::Needs(id) => Evaluation::Needs(id),
        }
    }
}

impl CombinationConditionId {
    pub fn new(id: StateConditionId) -> (r: Self)
        ensures
            r@ == CondId::Id(id),
    {
        CombinationConditionId::Id(id)
    }

    /// `self And condition`; when `self` is an `And`, `condition` joins its children.
    pub fn add_and(self, condition: CombinationConditionId) -> (r: Self)
        ensures
            r@ == (match self@ {
                CondId::And(ids) => CondId::And(ids.push(condition@)),
                _ => CondId::And(seq![self@, condition@]),
            }),
    {
        match self {
            CombinationConditionId::And(ids) => {
                let mut ids = ids;
                let ghost before = ids@;
                ids.push(condition);
                proof {
                    lemma_id_views(before, 0);
                    lemma_id_views(ids@, 0);
                    assert(id_views(ids@, 0) =~= id_views(before, 0).push(ids@[before.len() as int]@));
                }
                CombinationConditionId::And(ids)
            },
            other => {
                let v = vec![other, condition];
                proof {
                    lemma_id_views(v@, 0);
                    assert(id_views(v@, 0) =~= seq![v@[0]@, v@[1]@]);
                }
                CombinationConditionId::And(v)
            },
        }
    }

    /// `self Or condition`; when `self` is an `Or`, `condition` joins its children.
    pub fn add_or(self, condition: CombinationConditionId) -> (r: Self)
        ensures
            r@ == (match self@ {
                CondId::Or(ids) => CondId::Or(ids.push(condition@)),
                _ => CondId::Or(seq![self@, condition@]),
            }),
    {
        match self {
            CombinationConditionId::Or(ids) => {
                let mut ids = ids;
                let ghost before = ids@;
                ids.push(condition);
                proof {
                    lemma_id_views(before, 0);
                    lemma_id_views(ids@, 0);
                    assert(id_views(ids@, 0) =~= id_views(before, 0).push(ids@[before.len() as int]@));
                }
                CombinationConditionId::Or(ids)
            },
            other => {
                let v = vec![other, condition];
                proof {
                    lemma_id_views(v@, 0);
                    assert(id_views(v@, 0) =~= seq![v@[0]@, v@[1]@]);
                }
                CombinationConditionId::Or(v)
            },
        }
    }

    /// The negation of `self`; a double negation cancels.
    pub fn add_not(self) -> (r: Self)
        ensures
            r@ == (match self@ {
                CondId::Not(x) => *x,
                _ => CondId::Not(Box::new(self@)),
            }),
    {
        match self {
            CombinationConditionId::Not(b) => *b,
            other => CombinationConditionId::Not(Box::new(other)),
        }
    }

    /// Evaluates the condition against the outcomes of the callbacks that
    /// have run so far, in the order in which they were run: either the
    /// condition's value, or the callback to run next.
    pub fn run(&self, outcomes: &Vec<Result<bool, CallbackError>>) -> (r: EvalStep)
        ensures
            r@ == eval(self@, outcomes@, 0),
    {
        self.run_from(outcomes, 0)
    }

    fn run_from(&self, outcomes: &Vec<Result<bool, CallbackError>>, used: usize) -> (r: EvalStep)
        requires
            used <= outcomes@.len(),
        ensures
            r@ == eval(self@, outcomes@, used as nat),
            r matches EvalStep::Done(_, u) ==> u <= outcomes@.len(),
        decreases self, 0nat,
    {
        match self {
            CombinationConditionId::Id(id) => {
                if used < outcomes.len() {
                    EvalStep::Done(outcomes[used], used + 1)
                } else {
                    EvalStep::Needs(*id)
                }
            },
            CombinationConditionId::Not(b) => match b.run_from(outcomes, used) {
                EvalStep::Done(Ok(x), u) => EvalStep::Done(Ok(!x), u),
                other => other,
            },
            CombinationConditionId::And(v) => Self::run_all(v, 0, true, outcomes, used),
            CombinationConditionId::Or(v) => Self::run_all(v, 0, false, outcomes, used),
        }
    }

    fn run_all(
        v: &Vec<CombinationConditionId>,
        i: usize,
        conj: bool,
        outcomes: &Vec<Result<bool, CallbackError>>,
        used: usize,
    ) -> (r: EvalStep)
        requires
            i <= v@.len(),
            used <= outcomes@.len(),
        ensures
            r@ == eval_all(id_views(v@, 0), i as nat, conj, outcomes@, used as nat),
            r matches EvalStep::Done(_, u) ==> u <= outcomes@.len(),
        decreases v, v@.len() - i,
    {
        proof {
            lemma_id_views(v@, 0);
        }
        if i >= v.len() {
            return EvalStep::Done(Ok(conj), used);
        }
        match v[i].run_from(outcomes, used) {
            EvalStep::Done(Ok(x), u) => {
                if x == conj {
                    Self::run_all(v, i + 1, conj, outcomes, u)
                } else {
                    EvalStep::Done(Ok(x), u)
                }
            },
            other => other,
        }
    }
}

/// `id_views(s, i)` holds the value of each element of `s[i..]`, in order.
pub proof fn lemma_id_views(s: Seq<CombinationConditionId>, i: nat)
    requires
        i <= s.len(),
    ensures
        id_views(s, i).len() == s.len() - i,
        forall|k: int| 0 <= k < s.len() - i ==> #[trigger] id_views(s, i)[k] == s[i + k]@,
    decreases s.len() - i,
{
    if i < s.len() {
        lemma_id_views(s, i + 1);
        assert forall|k: int| 0 <= k < s.len() - i implies #[trigger] id_views(s, i)[k]
            == s[i + k]@ by {
            if k > 0 {
                assert(id_views(s, i)[k] == id_views(s, i + 1)[k - 1]);
            }
        }
    }
}

/// `outs2` agrees with `outs` on the first `u` outcomes.
pub open spec fn agree_upto(
    outs: Seq<Result<bool, CallbackError>>,
    outs2: Seq<Result<bool, CallbackError>>,
    u: nat,
) -> bool {
    u <= outs.len() && u <= outs2.len() && forall|k: int| 0 <= k < u ==> outs2[k] == outs[k]
}

/// A finished evaluation reads only the outcomes it counts: any other
/// outcome list that agrees on those gives the same result.
pub proof fn lemma_eval_reads_prefix(
    c: CondId,
    outs: Seq<Result<bool, CallbackError>>,
    outs2: Seq<Result<bool, CallbackError>>,
    used: nat,
)
    ensures
        eval(c, outs, used) matches Evaluation::Done(_, u) ==> used <= u && (used <= outs.len()
            ==> u <= outs.len()),
        eval(c, outs, used) matches Evaluation::Done(_, u) && agree_upto(outs, outs2, u) ==> eval(
            c,
            outs2,
            used,
        ) == eval(c, outs, used),
    decreases c, 0nat,
{
    match c {
        CondId::Id(_) => {},
        CondId::Not(b) => {
            lemma_eval_reads_prefix(*b, outs, outs2, used);
        },
        CondId::And(cs) => {
            lemma_eval_all_reads_prefix(cs, 0, true, outs, outs2, used);
        },
        CondId::Or(cs) => {
            lemma_eval_all_reads_prefix(cs, 0, false, outs, outs2, used);
        },
    }
}

proof fn lemma_eval_all_reads_prefix(
    cs: Seq<CondId>,
    i: nat,
    conj: bool,
    outs: Seq<Result<bool, CallbackError>>,
    outs2: Seq<Result<bool, CallbackError>>,
    used: nat,
)
    ensures
        eval_all(cs, i, conj, outs, used) matches Evaluation::Done(_, u) ==> used <= u && (used
            <= outs.len() ==> u <= outs.len()),
        eval_all(cs, i, conj, outs, used) matches Evaluation::Done(_, u) && agree_upto(
            outs,
            outs2,
            u,
        ) ==> eval_all(cs, i, conj, outs2, used) == eval_all(cs, i, conj, outs, used),
    decreases cs, cs.len() - i,
{
    if i < cs.len() {
        lemma_eval_reads_prefix(cs[i as int], outs, outs2, used);
        match eval(cs[i as int], outs, used) {
            Evaluation::Done(Ok(x), u1) => {
                if x == conj {
                    lemma_eval_all_reads_prefix(cs, i + 1, conj, outs, outs2, u1);
                    if let Evaluation::Done(_, u) = eval_all(cs, i, conj, outs, used) {
                        if agree_upto(outs, outs2, u) {
                            assert(agree_upto(outs, outs2, u1));
                        }
                    }
                }
            },
            _ => {},
        }
    }
}

/// `And` stops at a child that comes out `false`: the condition is `false`,
/// and no outcome after that child's is read, so a failing callback further
/// on is never run.
pub proof fn lemma_and_short_circuit(
    cs: Seq<CondId>,
    outs: Seq<Result<bool, CallbackError>>,
    more: Seq<Result<bool, CallbackError>>,
    u: nat,
)
    requires
        cs.len() >= 1,
        eval(cs[0], outs, 0) == Evaluation::Done(Ok(false), u),
    ensures
        eval(CondId::And(cs), outs, 0) == Evaluation::Done(Ok(false), u),
        u <= outs.len() ==> eval(CondId::And(cs), outs.subrange(0, u as int) + more, 0)
            == Evaluation::Done(Ok(false), u),
{
    assert(eval(CondId::And(cs), outs, 0) == eval_all(cs, 0, true, outs, 0));
    if u <= outs.len() {
        let outs2 = outs.subrange(0, u as int) + more;
        assert(agree_upto(outs, outs2, u));
        lemma_eval_reads_prefix(CondId::And(cs), outs, outs2, 0);
    }
}

/// `Or` stops at a child that comes out `true`, in the same way.
pub proof fn lemma_or_short_circuit(
    cs: Seq<CondId>,
    outs: Seq<Result<bool, CallbackError>>,
    more: Seq<Result<bool, CallbackError>>,
    u: nat,
)
    requires
        cs.len() >= 1,
        eval(cs[0], outs, 0) == Evaluation::Done(Ok(true), u),
    ensures
        eval(CondId::Or(cs), outs, 0) == Evaluation::Done(Ok(true), u),
        u <= outs.len() ==> eval(CondId::Or(cs), outs.subrange(0, u as int) + more, 0)
            == Evaluation::Done(Ok(true), u),
{
    assert(eval(CondId::Or(cs), outs, 0) == eval_all(cs, 0, false, outs, 0));
    if u <= outs.len() {
        let outs2 = outs.subrange(0, u as int) + more;
        assert(agree_upto(outs, outs2, u));
        lemma_eval_reads_prefix(CondId::Or(cs), outs, outs2, 0);
    }
}

/// The registered guard callbacks, by name.
pub type StateConditions = NamedHandles;

impl NamedHandles {
    /// Binds every name of `condition` to its registered handle; none when
    /// a name is not registered.
    pub fn to_combinator_condition_id(&self, condition: &CombinationCondition) -> (r: Option<
        CombinationConditionId,
    >)
        requires
            self.wf(),
        ensures
            match resolve(condition@, self@) {
                Some(id) => r matches Some(x) && x@ == id,
                None => r is None,
            },
        decreases condition, 0nat,
    {
        match condition {
            CombinationCondition::And(v) => match self.resolve_from(v, 0) {
                Some(ids) => Some(CombinationConditionId::And(ids)),
                None => None,
            },
            CombinationCondition::Or(v) => match self.resolve_from(v, 0) {
                Some(ids) => Some(CombinationConditionId::Or(ids)),
                None => None,
            },
            CombinationCondition::Not(b) => match self.to_combinator_condition_id(b) {
                Some(id) => Some(CombinationConditionId::Not(Box::new(id))),
                None => None,
            },
            CombinationCondition::Id(name) => match self.get(name.as_str()) {
                Some(id) => Some(CombinationConditionId::Id(id)),
                None => None,
            },
        }
    }

    fn resolve_from(&self, v: &Vec<CombinationCondition>, i: usize) -> (r: Option<
        Vec<CombinationConditionId>,
    >)
        requires
            self.wf(),
            i <= v@.len(),
        ensures
            match resolve_list(all_views(v@), i as nat, self@) {
                Some(ids) => r matches Some(x) && id_views(x@, 0) == ids,
                None => r is None,
            },
        decreases v, v@.len() - i,
    {
        proof {
            lemma_views(v@, 0);
        }
        if i >= v.len() {
            let e: Vec<CombinationConditionId> = Vec::new();
            proof {
                assert(id_views(e@, 0) =~= Seq::<CondId>::empty());
            }
            return Some(e);
        }
        match self.to_combinator_condition_id(&v[i]) {
            None => None,
            Some(a) => match self.resolve_from(v, i + 1) {
                None => None,
                Some(rest) => {
                    let mut out: Vec<CombinationConditionId> = Vec::new();
                    out.push(a);
                    let ghost (o0, r0) = (out@, rest@);
                    let mut rest = rest;
                    out.append(&mut rest);
                    proof {
                        lemma_id_views(o0, 0);
                        lemma_id_views(r0, 0);
                        lemma_id_views(out@, 0);
                        assert(id_views(out@, 0) =~= seq![o0[0]@] + id_views(r0, 0));
                    }
                    Some(out)
                },
            },
        }
    }
}

/// The guard that a state's enter depends on.
#[derive(Debug, PartialEq, Eq, Default)]
pub struct HsmOnEnterCondition(pub CombinationCondition);

impl HsmOnEnterCondition {
    /// A guard on one named condition.
    pub fn new(name: &str) -> (r: Self)
        ensures
            r.0@ == Cond::Id(name@),
    {
        HsmOnEnterCondition(CombinationCondition::new(name))
    }
}

/// The guard that a state's exit depends on.
#[derive(Debug, PartialEq, Eq, Default)]
pub struct HsmOnExitCondition(pub CombinationCondition);

impl HsmOnExitCondition {
    /// A guard on one named condition.
    pub fn new(name: &str) -> (r: Self)
        ensures
            r.0@ == Cond::Id(name@),
    {
        HsmOnExitCondition(CombinationCondition::new(name))
    }

    /// A guard given in the text form of a condition.
    pub fn parse(s: &str) -> (r: Result<Self, String>)
        ensures
            match crate::condition_parser::parse_text(s@) {
                Some(c) => r matches Ok(x) && x.0@ == c,
                None => r is Err,
            },
    {
        match CombinationCondition::parse(s) {
            Ok(c) => Ok(HsmOnExitCondition(c)),
            Err(e) => Err(e),
        }
    }
}

} // verus!
