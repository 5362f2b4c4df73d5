use vstd::prelude::*;
use crate::color::Color;
use vstd::std_specs::cmp::PartialEqSpec;
use crate::text::{
    chars_of,
    same_text,
    compare_names,
    lemma_name_less_irreflexive,
    lemma_name_less_total,
    lemma_name_less_transitive,
    name_less,
};

verus! {

/// A double-precision number carried as its IEEE 754 bit pattern. The
/// library stores, compares and hands on such numbers; it never computes
/// with them.
#[derive(Clone, Copy, Debug, PartialEq, Eq, Structural, Hash)]
pub struct Real {
    pub bits: u64,
}

/// The declared shape of a script input: an inclusive range of integers or
/// of floats, or a colour (declared, but not yet bindable).
#[derive(Clone, Copy, Debug, PartialEq, Eq, Structural)]
pub enum ExternalInput {
    Int { min: i64, max: i64 },
    Float { min: Real, max: Real },
    Color(Color),
}

/// The value currently bound to one input.
#[derive(Clone, Copy, Debug, PartialEq, Eq, Structural, Hash)]
pub enum InputValue {
    Int(i64),
    Float(Real),
    Color(Color),
}

impl From<i64> for InputValue {
    fn from(value: i64) -> (r: InputValue)
        ensures
            r == InputValue::Int(value),
    {
        InputValue::Int(value)
    }
}

impl vstd::std_specs::convert::FromSpecImpl<i64> for InputValue {
    open spec fn obeys_from_spec() -> bool {
        true
    }

    open spec fn from_spec(v: i64) -> InputValue {
        InputValue::Int(v)
    }
}

impl From<Real> for InputValue {
    fn from(value: Real) -> (r: InputValue)
        ensures
            r == InputValue::Float(value),
    {
        InputValue::Float(value)
    }
}

impl vstd::std_specs::convert::FromSpecImpl<Real> for InputValue {
    open spec fn obeys_from_spec() -> bool {
        true
    }

    open spec fn from_spec(v: Real) -> InputValue {
        InputValue::Float(v)
    }
}

// ---------------------------------------------------------------------------
// Name-keyed tables kept in name order

/// Names strictly increase along the table: names are unique and sorted.
pub open spec fn sorted_unique<V>(es: Seq<(Seq<char>, V)>) -> bool {
    forall|i: int, j: int|
        0 <= i < j < es.len() ==> name_less(#[trigger] es[i].0, #[trigger] es[j].0)
}

pub open spec fn has_name<V>(es: Seq<(Seq<char>, V)>, k: Seq<char>) -> bool {
    exists|i: int| 0 <= i < es.len() && #[trigger] es[i].0 == k
}

pub open spec fn value_of<V>(es: Seq<(Seq<char>, V)>, k: Seq<char>) -> V {
    es[choose|i: int| 0 <= i < es.len() && #[trigger] es[i].0 == k].1
}

/// The map that a table stands for.
pub open spec fn map_of<V>(es: Seq<(Seq<char>, V)>) -> Map<Seq<char>, V> {
    Map::new(|k: Seq<char>| has_name(es, k), |k: Seq<char>| value_of(es, k))
}

proof fn lemma_unique_index<V>(es: Seq<(Seq<char>, V)>, i: int, j: int)
    requires
        sorted_unique(es),
        0 <= i < es.len(),
        0 <= j < es.len(),
        es[i].0 == es[j].0,
    ensures
        i == j,
{
    lemma_name_less_irreflexive(es[i].0);
    if i < j {
        assert(name_less(es[i].0, es[j].0));
    } else if j < i {
        assert(name_less(es[j].0, es[i].0));
    }
}

proof fn lemma_map_of_at<V>(es: Seq<(Seq<char>, V)>, i: int)
    requires
        sorted_unique(es),
        0 <= i < es.len(),
    ensures
        map_of(es).contains_key(es[i].0),
        map_of(es)[es[i].0] == es[i].1,
{
    assert(has_name(es, es[i].0));
    let j = choose|j: int| 0 <= j < es.len() && #[trigger] es[j].0 == es[i].0;
    lemma_unique_index(es, i, j);
}

/// Two name-sorted tables that stand for the same map are the same table.
proof fn lemma_canonical<V>(a: Seq<(Seq<char>, V)>, b: Seq<(Seq<char>, V)>)
    requires
        sorted_unique(a),
        sorted_unique(b),
        map_of(a) == map_of(b),
    ensures
        a == b,
    decreases a.len(),
{
    if a.len() == 0 {
        if b.len() > 0 {
            lemma_map_of_at(b, 0);
        }
        assert(a =~= b);
    } else {
        lemma_map_of_at(a, 0);
        if b.len() == 0 {
            assert(false);
        }
        lemma_map_of_at(b, 0);
        let x = a[0].0;
        let y = b[0].0;
        assert(has_name(b, x));
        let j = choose|j: int| 0 <= j < b.len() && #[trigger] b[j].0 == x;
        assert(has_name(a, y));
        let i = choose|i: int| 0 <= i < a.len() && #[trigger] a[i].0 == y;
        if x != y {
            assert(j > 0 && i > 0);
            assert(name_less(y, x));
            assert(name_less(x, y));
            lemma_name_less_transitive(x, y, x);
            lemma_name_less_irreflexive(x);
        }
        let ra = a.drop_first();
        let rb = b.drop_first();
        assert forall|k: Seq<char>| #[trigger] map_of(ra).contains_key(k) == map_of(
            rb,
        ).contains_key(k) && (map_of(ra).contains_key(k) ==> map_of(ra)[k] == map_of(rb)[k]) by {
            if has_name(ra, k) {
                let p = choose|p: int| 0 <= p < ra.len() && #[trigger] ra[p].0 == k;
                lemma_map_of_at(a, p + 1);
                assert(map_of(a).contains_key(k));
                assert(has_name(b, k));
                let q = choose|q: int| 0 <= q < b.len() && #[trigger] b[q].0 == k;
                lemma_map_of_at(b, q);
                if q == 0 {
                    lemma_unique_index(a, 0, p + 1);
                }
                assert(rb[q - 1].0 == k);
                assert(has_name(rb, k));
                assert(sorted_unique(ra));
                assert(sorted_unique(rb));
                lemma_map_of_at(ra, p);
                lemma_map_of_at(rb, q - 1);
            }
            if has_name(rb, k) {
                let q = choose|q: int| 0 <= q < rb.len() && #[trigger] rb[q].0 == k;
                lemma_map_of_at(b, q + 1);
                assert(has_name(a, k));
                let p = choose|p: int| 0 <= p < a.len() && #[trigger] a[p].0 == k;
                if p == 0 {
                    lemma_unique_index(b, 0, q + 1);
                }
                assert(ra[p - 1].0 == k);
                assert(has_name(ra, k));
            }
        }
        assert(map_of(ra) =~= map_of(rb));
        lemma_canonical(ra, rb);
        assert(a =~= seq![a[0]] + ra);
        assert(b =~= seq![b[0]] + rb);
    }
}

/// The inputs a script declares: a map from input name to its declared
/// shape, kept in name order.
#[derive(Debug)]
pub struct InputMap {
    inputs: Vec<(String, ExternalInput)>,
}

impl InputMap {
    pub closed spec fn entries(&self) -> Seq<(Seq<char>, ExternalInput)> {
        self.inputs@.map_values(|p: (String, ExternalInput)| (p.0@, p.1))
    }

    /// Names are unique and sorted.
    pub closed spec fn wf(&self) -> bool {
        sorted_unique(self.entries())
    }

    /// An empty map.
    pub fn new() -> (r: InputMap)
        ensures
            r.wf(),
            r@ == Map::<Seq<char>, ExternalInput>::empty(),
    {
        let r = InputMap { inputs: Vec::new() };
        proof {
            assert(r.entries() =~= Seq::<(Seq<char>, ExternalInput)>::empty());
            assert(map_of(r.entries()) =~= Map::<Seq<char>, ExternalInput>::empty());
        }
        r
    }

    /// Declares (or re-declares) the input `name`.
    pub fn insert(&mut self, name: String, input: ExternalInput)
        requires
            old(self).wf(),
        ensures
            final(self).wf(),
            final(self)@ == old(self)@.insert(name@, input),
    {
        let key = chars_of(name.as_str());
        let n = self.inputs.len();
        let mut p: usize = 0;
        let mut c: i8 = 1;
        while p < n
            invariant
                p <= n,
                n == self.inputs@.len(),
                key@ == name@,
                sorted_unique(self.entries()),
                forall|i: int| 0 <= i < p ==> name_less(#[trigger] self.entries()[i].0, name@),
                c > 0 || (p < n && (c == 0 ==> self.entries()[p as int].0 == name@) && (c < 0
                    ==> name_less(name@, self.entries()[p as int].0))),
            ensures
                p == n || c <= 0,
            decreases n - p,
        {
            let other = chars_of(self.inputs[p].0.as_str());
            c = compare_names(&key, &other);
            assert(self.entries()[p as int].0 == other@);
            if c <= 0 {
                break ;
            }
            p = p + 1;
        }
        let ghost es = self.entries();
        let ghost found = p < n && c == 0;
        proof {
            if p < n {
                assert(es[p as int].0 == self.inputs@[p as int].0@);
            }
        }
        if p < n && c == 0 {
            self.inputs[p] = (name, input);
            proof {
                let es2 = self.entries();
                assert(es2 =~= es.update(p as int, (name@, input)));
                assert(sorted_unique(es2));
                assert(map_of(es2) =~= map_of(es).insert(name@, input)) by {
                    assert forall|k: Seq<char>| #[trigger]
                        map_of(es2).contains_key(k) == map_of(es).insert(
                            name@,
                            input,
                        ).contains_key(k) by {
                        if has_name(es, k) {
                            let i = choose|i: int| 0 <= i < es.len() && #[trigger] es[i].0 == k;
                            assert(es2[i].0 == k);
                        }
                        if has_name(es2, k) {
                            let i = choose|i: int| 0 <= i < es2.len() && #[trigger] es2[i].0 == k;
                            assert(es[i].0 == k);
                        }
                    }
                    assert forall|k: Seq<char>| #[trigger] map_of(es2).contains_key(k) implies map_of(
                        es2,
                    )[k] == map_of(es).insert(name@, input)[k] by {
                        let i = choose|i: int| 0 <= i < es2.len() && #[trigger] es2[i].0 == k;
                        lemma_map_of_at(es2, i);
                        lemma_map_of_at(es, i);
                        if i != p && k == name@ {
                            lemma_unique_index(es2, i, p as int);
                        }
                    }
                }
            }
        } else {
            proof {
                lemma_name_less_irreflexive(name@);
                if p < n {
                    lemma_name_less_total(name@, es[p as int].0);
                }
            }
            self.inputs.insert(p, (name, input));
            proof {
                let es2 = self.entries();
                assert(es2 =~= es.insert(p as int, (name@, input)));
                assert forall|i: int, j: int| 0 <= i < j < es2.len() implies name_less(
                    #[trigger] es2[i].0,
                    #[trigger] es2[j].0,
                ) by {
                    if j == p {
                        assert(es2[i] == es[i]);
                    } else if i == p {
                        assert(es2[j] == es[j - 1]);
                        if j - 1 > p {
                            lemma_name_less_transitive(name@, es[p as int].0, es[j - 1].0);
                        }
                    } else if i > p {
                        assert(es2[i] == es[i - 1] && es2[j] == es[j - 1]);
                    } else if j > p {
                        assert(es2[i] == es[i] && es2[j] == es[j - 1]);
                    } else {
                        assert(es2[i] == es[i] && es2[j] == es[j]);
                    }
                }
                assert(!has_name(es, name@)) by {
                    if has_name(es, name@) {
                        let i = choose|i: int| 0 <= i < es.len() && #[trigger] es[i].0 == name@;
                        if i < p {
                            assert(name_less(es[i].0, name@));
                        } else if i > p {
                            lemma_name_less_transitive(name@, es[p as int].0, es[i].0);
                        }
                    }
                }
                assert(map_of(es2) =~= map_of(es).insert(name@, input)) by {
                    assert forall|k: Seq<char>| #[trigger]
                        map_of(es2).contains_key(k) == map_of(es).insert(
                            name@,
                            input,
                        ).contains_key(k) by {
                        if has_name(es, k) {
                            let i = choose|i: int| 0 <= i < es.len() && #[trigger] es[i].0 == k;
                            if i < p {
                                assert(es2[i].0 == k);
                            } else {
                                assert(es2[i + 1].0 == k);
                            }
                        }
                        if k == name@ {
                            assert(es2[p as int].0 == k);
                        }
                        if has_name(es2, k) {
                            let i = choose|i: int| 0 <= i < es2.len() && #[trigger] es2[i].0 == k;
                            if i < p {
                                assert(es[i].0 == k);
                            } else if i > p {
                                assert(es[i - 1].0 == k);
                            }
                        }
                    }
                    assert forall|k: Seq<char>| #[trigger] map_of(es2).contains_key(k) implies map_of(
                        es2,
                    )[k] == map_of(es).insert(name@, input)[k] by {
                        let i = choose|i: int| 0 <= i < es2.len() && #[trigger] es2[i].0 == k;
                        lemma_map_of_at(es2, i);
                        if i < p {
                            lemma_map_of_at(es, i);
                        } else if i > p {
                            lemma_map_of_at(es, i - 1);
                        }
                    }
                }
            }
        }
    }
}

impl View for InputMap {
    type V = Map<Seq<char>, ExternalInput>;

    closed spec fn view(&self) -> Map<Seq<char>, ExternalInput> {
        map_of(self.entries())
    }
}


impl InputMap {
    /// The declared inputs in name order.
    pub fn get_inputs_sorted(&self) -> (r: Vec<(String, ExternalInput)>)
        ensures
            r@.map_values(|p: (String, ExternalInput)| (p.0@, p.1)) == self.entries(),
            self.wf() ==> sorted_unique(r@.map_values(|p: (String, ExternalInput)| (p.0@, p.1))),
            map_of(r@.map_values(|p: (String, ExternalInput)| (p.0@, p.1))) == self@,
    {
        let mut out: Vec<(String, ExternalInput)> = Vec::new();
        let mut k: usize = 0;
        while k < self.inputs.len()
            invariant
                k <= self.inputs@.len(),
                out@.map_values(|p: (String, ExternalInput)| (p.0@, p.1)) == self.entries().subrange(
                    0,
                    k as int,
                ),
            decreases self.inputs@.len() - k,
        {
            let name = self.inputs[k].0.clone();
            let input = self.inputs[k].1;
            let ghost before = out@;
            out.push((name, input));
            assert(self.entries()[k as int] == (name@, input));
            assert(out@.map_values(|p: (String, ExternalInput)| (p.0@, p.1)) =~= before.map_values(
                |p: (String, ExternalInput)| (p.0@, p.1),
            ).push((name@, input)));
            k = k + 1;
            assert(out@.map_values(|p: (String, ExternalInput)| (p.0@, p.1)) =~= self.entries().subrange(
                0,
                k as int,
            ));
        }
        assert(self.entries().subrange(0, k as int) =~= self.entries());
        out
    }

    /// No declared input is a colour: every input can be given a value.
    pub fn is_bindable(&self) -> (r: bool)
        requires
            self.wf(),
        ensures
            r == (forall|k: Seq<char>| #[trigger] self@.contains_key(k) ==> !(self@[k] is Color)),
    {
        let mut k: usize = 0;
        while k < self.inputs.len()
            invariant
                k <= self.inputs@.len(),
                forall|i: int| 0 <= i < k ==> !(#[trigger] self.entries()[i].1 is Color),
                self.wf(),
            decreases self.inputs@.len() - k,
        {
            if let ExternalInput::Color(_) = self.inputs[k].1 {
                proof {
                    lemma_map_of_at(self.entries(), k as int);
                }
                return false;
            }
            k = k + 1;
        }
        proof {
            let es = self.entries();
            assert forall|key: Seq<char>| #[trigger] self@.contains_key(key) implies !(
            self@[key] is Color) by {
                let j = choose|j: int| 0 <= j < es.len() && #[trigger] es[j].0 == key;
                lemma_map_of_at(es, j);
            }
        }
        true
    }
}

/// Equality of declarations: the same names with the same declared shapes.
impl PartialEq for InputMap {
    fn eq(&self, other: &InputMap) -> (r: bool)
        ensures
            r == (self.entries() == other.entries()),
    {
        if self.inputs.len() != other.inputs.len() {
            proof {
                assert(self.entries().len() != other.entries().len());
            }
            return false;
        }
        let mut k: usize = 0;
        while k < self.inputs.len()
            invariant
                k <= self.inputs@.len(),
                self.inputs@.len() == other.inputs@.len(),
                self.entries().subrange(0, k as int) == other.entries().subrange(0, k as int),
            decreases self.inputs@.len() - k,
        {
            if self.inputs[k].0 != other.inputs[k].0 || self.inputs[k].1 != other.inputs[k].1 {
                proof {
                    assert(self.entries()[k as int] != other.entries()[k as int]);
                }
                return false;
            }
            k = k + 1;
            assert(self.entries().subrange(0, k as int) =~= other.entries().subrange(0, k as int));
        }
        assert(self.entries().subrange(0, k as int) =~= self.entries());
        assert(other.entries().subrange(0, k as int) =~= other.entries());
        true
    }
}

impl vstd::std_specs::cmp::PartialEqSpecImpl for InputMap {
    open spec fn obeys_eq_spec() -> bool {
        true
    }

    open spec fn eq_spec(&self, other: &InputMap) -> bool {
        self.entries() == other.entries()
    }
}

/// Two well-formed input maps compare equal exactly when they declare the
/// same names with the same shapes, whatever order the declarations came
/// in; so changing one declared bound makes them unequal.
pub proof fn lemma_input_map_eq(a: &InputMap, b: &InputMap)
    requires
        a.wf(),
        b.wf(),
    ensures
        a.eq_spec(b) <==> a@ == b@,
{
    if a@ == b@ {
        lemma_canonical(a.entries(), b.entries());
    }
}


// ---------------------------------------------------------------------------
// Extraction of declared inputs

/// A call argument, as far as input extraction reads it.
#[derive(Clone, Copy, Debug, PartialEq, Eq, Structural)]
pub enum Argument {
    Int(i64),
    Float(Real),
    /// a constant of another type (a string, a boolean, ...)
    OtherConstant,
    /// an expression that is not a constant
    NotConstant,
}

/// The right-hand side of a top-level binding.
#[derive(Clone, Debug)]
pub enum BoundValue {
    /// a call of the named function on these arguments
    Call { function: String, args: Vec<Argument> },
    NotCall,
}

/// A top-level statement of a script, as far as input extraction reads it.
#[derive(Clone, Debug)]
pub enum Statement {
    /// `let <name> = <value>`
    Let { name: String, value: BoundValue },
    Other,
}

/// Why a script's inputs could not be extracted.
#[derive(Clone, Debug, PartialEq)]
pub enum ExtractError {
    /// a declaration has fewer than two arguments
    MissingArguments,
    /// a bound is not a literal
    NotLiteral,
    /// one bound is an integer and the other is not, or one is a float and
    /// the other is not
    MixedKinds,
    /// the bounds are neither integers nor floats
    Unsupported,
    /// the script does not compile; the engine's message
    Compile(String),
}

/// The name of the declaring function.
pub open spec fn declare_word() -> Seq<char> {
    seq!['e', 'x', 't', 'e', 'r', 'n']
}

/// The declared shape given by the two bounds of a declaration.
pub open spec fn bounds_input(lo: Argument, hi: Argument) -> Result<ExternalInput, ExtractError> {
    if lo is NotConstant || hi is NotConstant {
        Err(ExtractError::NotLiteral)
    } else {
        match lo {
            Argument::Int(a) => match hi {
                Argument::Int(b) => Ok(ExternalInput::Int { min: a, max: b }),
                _ => Err(ExtractError::MixedKinds),
            },
            Argument::Float(a) => match hi {
                Argument::Float(b) => Ok(ExternalInput::Float { min: a, max: b }),
                _ => Err(ExtractError::MixedKinds),
            },
            _ => Err(ExtractError::Unsupported),
        }
    }
}

/// The statement is `let <name> = extern(...)`.
pub open spec fn is_declaration(st: Statement) -> bool {
    st matches Statement::Let { value: BoundValue::Call { function, .. }, .. }
        && function@ == declare_word()
}

/// What one top-level statement declares: nothing, one input, or an error.
pub open spec fn declaration(st: Statement) -> Result<Option<(Seq<char>, ExternalInput)>, ExtractError> {
    match st {
        Statement::Let { name, value: BoundValue::Call { function, args } } => if function@
            == declare_word() {
            if args@.len() < 2 {
                Err(ExtractError::MissingArguments)
            } else {
                match bounds_input(args@[0], args@[1]) {
                    Ok(i) => Ok(Some((name@, i))),
                    Err(e) => Err(e),
                }
            }
        } else {
            Ok(None)
        },
        _ => Ok(None),
    }
}

/// The inputs declared by a statement list, read in order; a later
/// declaration of a name replaces an earlier one. The first statement
/// that fails decides the error.
pub open spec fn extract(stmts: Seq<Statement>) -> Result<Map<Seq<char>, ExternalInput>, ExtractError>
    decreases stmts.len(),
{
    if stmts.len() == 0 {
        Ok(Map::empty())
    } else {
        match extract(stmts.drop_last()) {
            Err(e) => Err(e),
            Ok(m) => match declaration(stmts.last()) {
                Err(e) => Err(e),
                Ok(None) => Ok(m),
                Ok(Some((k, v))) => Ok(m.insert(k, v)),
            },
        }
    }
}

fn bounds_from(lo: Argument, hi: Argument) -> (r: Result<ExternalInput, ExtractError>)
    ensures
        r == bounds_input(lo, hi),
{
    if let Argument::NotConstant = lo {
        return Err(ExtractError::NotLiteral);
    }
    if let Argument::NotConstant = hi {
        return Err(ExtractError::NotLiteral);
    }
    match lo {
        Argument::Int(a) => match hi {
            Argument::Int(b) => Ok(ExternalInput::Int { min: a, max: b }),
            _ => Err(ExtractError::MixedKinds),
        },
        Argument::Float(a) => match hi {
            Argument::Float(b) => Ok(ExternalInput::Float { min: a, max: b }),
            _ => Err(ExtractError::MixedKinds),
        },
        _ => Err(ExtractError::Unsupported),
    }
}

/// The input one statement declares, if any.
pub fn input_from_stmt(stmt: &Statement) -> (r: Result<Option<(String, ExternalInput)>, ExtractError>)
    ensures
        match declaration(*stmt) {
            Ok(None) => r == Ok::<Option<(String, ExternalInput)>, ExtractError>(None),
            Ok(Some((k, v))) => r matches Ok(Some((name, w))) && name@ == k && w == v,
            Err(e) => r == Err::<Option<(String, ExternalInput)>, ExtractError>(e),
        },
{
    match stmt {
        Statement::Let { name, value: BoundValue::Call { function, args } } => {
            let word = ['e', 'x', 't', 'e', 'r', 'n'];
            proof {
                assert(word@ == declare_word());
            }
            if !same_text(&chars_of(function.as_str()), &word) {
                return Ok(None);
            }
            if args.len() < 2 {
                return Err(ExtractError::MissingArguments);
            }
            match bounds_from(args[0], args[1]) {
                Ok(i) => Ok(Some((name.clone(), i))),
                Err(e) => Err(e),
            }
        },
        _ => Ok(None),
    }
}

impl InputMap {
    /// The inputs that a script's top-level statements declare.
    pub fn from_statements(stmts: &Vec<Statement>) -> (r: Result<InputMap, ExtractError>)
        ensures
            match extract(stmts@) {
                Ok(m) => r matches Ok(im) && im.wf() && im@ == m,
                Err(e) => r == Err::<InputMap, ExtractError>(e),
            },
    {
        let mut map = InputMap::new();
        let mut k: usize = 0;
        while k < stmts.len()
            invariant
                k <= stmts@.len(),
                map.wf(),
                extract(stmts@.subrange(0, k as int)) == Ok::<Map<Seq<char>, ExternalInput>, ExtractError>(map@),
            decreases stmts@.len() - k,
        {
            proof {
                assert(stmts@.subrange(0, k + 1).drop_last() =~= stmts@.subrange(0, k as int));
                assert(stmts@.subrange(0, k + 1).last() == stmts@[k as int]);
            }
            match input_from_stmt(&stmts[k]) {
                Ok(Some((name, input))) => {
                    map.insert(name, input);
                },
                Ok(None) => {},
                Err(e) => {
                    proof {
                        lemma_extract_error_stays(stmts@, k as int + 1);
                    }
                    return Err(e);
                },
            }
            k = k + 1;
        }
        assert(stmts@.subrange(0, k as int) =~= stmts@);
        Ok(map)
    }
}

proof fn lemma_extract_error_stays(stmts: Seq<Statement>, n: int)
    requires
        0 <= n <= stmts.len(),
        extract(stmts.subrange(0, n)) is Err,
    ensures
        extract(stmts) == extract(stmts.subrange(0, n)),
    decreases stmts.len() - n,
{
    if n < stmts.len() {
        assert(stmts.subrange(0, n + 1).drop_last() =~= stmts.subrange(0, n));
        lemma_extract_error_stays(stmts, n + 1);
    } else {
        assert(stmts.subrange(0, n) =~= stmts);
    }
}

/// A statement list with no input declaration declares no input, and the
/// store initialised from it holds no value.
pub proof fn lemma_no_declarations(stmts: Seq<Statement>)
    requires
        forall|i: int| 0 <= i < stmts.len() ==> !is_declaration(#[trigger] stmts[i]),
    ensures
        extract(stmts) == Ok::<Map<Seq<char>, ExternalInput>, ExtractError>(Map::empty()),
        initial_values(Map::empty()) == Map::<Seq<char>, InputValue>::empty(),
    decreases stmts.len(),
{
    if stmts.len() > 0 {
        assert forall|i: int| 0 <= i < stmts.drop_last().len() implies !is_declaration(
            #[trigger] stmts.drop_last()[i],
        ) by {
            assert(stmts.drop_last()[i] == stmts[i]);
        }
        lemma_no_declarations(stmts.drop_last());
        assert(!is_declaration(stmts[stmts.len() - 1]));
    }
    assert(initial_values(Map::empty()) =~= Map::<Seq<char>, InputValue>::empty());
}

// ---------------------------------------------------------------------------
// The values bound to inputs

/// The value an input starts with: the lower bound of its range.
pub open spec fn initial_value(i: ExternalInput) -> InputValue {
    match i {
        ExternalInput::Int { min, .. } => InputValue::Int(min),
        ExternalInput::Float { min, .. } => InputValue::Float(min),
        ExternalInput::Color(c) => InputValue::Color(c),
    }
}

pub open spec fn initial_values(m: Map<Seq<char>, ExternalInput>) -> Map<Seq<char>, InputValue> {
    m.map_values(|i: ExternalInput| initial_value(i))
}

/// The current value of each input, kept in name order.
#[derive(Debug, Clone)]
pub struct Inputs {
    inputs: Vec<(String, InputValue)>,
}

impl View for Inputs {
    type V = Map<Seq<char>, InputValue>;

    closed spec fn view(&self) -> Map<Seq<char>, InputValue> {
        map_of(self.entries())
    }
}

impl Inputs {
    pub closed spec fn entries(&self) -> Seq<(Seq<char>, InputValue)> {
        self.inputs@.map_values(|p: (String, InputValue)| (p.0@, p.1))
    }

    /// Names are unique and sorted.
    pub closed spec fn wf(&self) -> bool {
        sorted_unique(self.entries())
    }

    /// The bound values in name order.
    pub closed spec fn values(&self) -> Seq<InputValue> {
        self.inputs@.map_values(|p: (String, InputValue)| p.1)
    }

    /// A store with no input.
    pub fn new() -> (r: Inputs)
        ensures
            r.wf(),
            r@ == Map::<Seq<char>, InputValue>::empty(),
    {
        let r = Inputs { inputs: Vec::new() };
        proof {
            assert(r.entries() =~= Seq::<(Seq<char>, InputValue)>::empty());
            assert(map_of(r.entries()) =~= Map::<Seq<char>, InputValue>::empty());
        }
        r
    }

    /// A store with every declared input set to the lower bound of its
    /// range. A colour input keeps its declared colour; handing it to a
    /// script is not supported yet.
    pub fn init_from(map: &InputMap) -> (r: Inputs)
        requires
            map.wf(),
        ensures
            r.wf(),
            r@ == initial_values(map@),
    {
        let mut out: Vec<(String, InputValue)> = Vec::new();
        let mut k: usize = 0;
        while k < map.inputs.len()
            invariant
                k <= map.inputs@.len(),
                out@.len() == k,
                forall|i: int| 0 <= i < k ==> (#[trigger] out@[i]).0@ == map.entries()[i].0 && out@[i].1
                    == initial_value(map.entries()[i].1),
            decreases map.inputs@.len() - k,
        {
            let name = map.inputs[k].0.clone();
            let value = match map.inputs[k].1 {
                ExternalInput::Int { min, .. } => InputValue::Int(min),
                ExternalInput::Float { min, .. } => InputValue::Float(min),
                ExternalInput::Color(c) => InputValue::Color(c),
            };
            out.push((name, value));
            k = k + 1;
        }
        let r = Inputs { inputs: out };
        proof {
            let es = map.entries();
            let rs = r.entries();
            assert forall|i: int, j: int| 0 <= i < j < rs.len() implies name_less(
                #[trigger] rs[i].0,
                #[trigger] rs[j].0,
            ) by {
                assert(rs[i].0 == es[i].0 && rs[j].0 == es[j].0);
            }
            assert forall|key: Seq<char>| #[trigger] map_of(rs).contains_key(key) == initial_values(
                map@,
            ).contains_key(key) by {
                if has_name(rs, key) {
                    let i = choose|i: int| 0 <= i < rs.len() && #[trigger] rs[i].0 == key;
                    assert(es[i].0 == key);
                }
                if has_name(es, key) {
                    let i = choose|i: int| 0 <= i < es.len() && #[trigger] es[i].0 == key;
                    assert(rs[i].0 == key);
                }
            }
            assert forall|key: Seq<char>| #[trigger] map_of(rs).contains_key(key) implies map_of(rs)[key]
                == initial_values(map@)[key] by {
                let i = choose|i: int| 0 <= i < rs.len() && #[trigger] rs[i].0 == key;
                assert(es[i].0 == key);
                lemma_map_of_at(rs, i);
                lemma_map_of_at(es, i);
            }
            assert(map_of(rs) =~= initial_values(map@));
        }
        r
    }

    fn position(&self, key: &str) -> (r: Option<usize>)
        requires
            self.wf(),
        ensures
            r is Some <==> self@.contains_key(key@),
            r matches Some(p) ==> p < self.inputs@.len() && self.entries()[p as int].0 == key@
                && self@[key@] == self.entries()[p as int].1,
    {
        let target = chars_of(key);
        let mut k: usize = 0;
        while k < self.inputs.len()
            invariant
                k <= self.inputs@.len(),
                target@ == key@,
                self.wf(),
                forall|i: int| 0 <= i < k ==> (#[trigger] self.entries()[i]).0 != key@,
            decreases self.inputs@.len() - k,
        {
            let name = chars_of(self.inputs[k].0.as_str());
            if compare_names(&name, &target) == 0 {
                proof {
                    assert(self.entries()[k as int].0 == key@);
                    lemma_map_of_at(self.entries(), k as int);
                }
                return Some(k);
            }
            assert(self.entries()[k as int].0 == name@);
            k = k + 1;
        }
        proof {
            if has_name(self.entries(), key@) {
                let i = choose|i: int| 0 <= i < self.entries().len() && #[trigger] self.entries()[i].0
                    == key@;
            }
        }
        None
    }

    /// The value bound to `key`, if any.
    pub fn get(&self, key: &str) -> (r: Option<InputValue>)
        requires
            self.wf(),
        ensures
            r == (if self@.contains_key(key@) {
                Some(self@[key@])
            } else {
                None
            }),
    {
        match self.position(key) {
            Some(p) => Some(self.inputs[p].1),
            None => None,
        }
    }

    /// The value of the integer input `key`; nothing if there is no such
    /// input or it is not an integer.
    pub fn get_int(&self, key: &str) -> (r: Option<i64>)
        requires
            self.wf(),
        ensures
            r == (if self@.contains_key(key@) && self@[key@] is Int {
                Some(self@[key@]->Int_0)
            } else {
                None
            }),
    {
        match self.get(key) {
            Some(InputValue::Int(v)) => Some(v),
            _ => None,
        }
    }

    /// The value of the float input `key`; nothing if there is no such
    /// input or it is not a float.
    pub fn get_float(&self, key: &str) -> (r: Option<Real>)
        requires
            self.wf(),
        ensures
            r == (if self@.contains_key(key@) && self@[key@] is Float {
                Some(self@[key@]->Float_0)
            } else {
                None
            }),
    {
        match self.get(key) {
            Some(InputValue::Float(v)) => Some(v),
            _ => None,
        }
    }

    fn replace_at(&mut self, p: usize, value: InputValue)
        requires
            old(self).wf(),
            p < old(self).inputs@.len(),
        ensures
            final(self).wf(),
            final(self)@ == old(self)@.insert(old(self).entries()[p as int].0, value),
            final(self).inputs@.len() == old(self).inputs@.len(),
    {
        let ghost es = self.entries();
        let name = self.inputs[p].0.clone();
        self.inputs[p] = (name, value);
        proof {
            assert(self.entries() =~= es.update(p as int, (es[p as int].0, value)));
            lemma_update_value(es, p as int, value);
        }
    }

    /// A handle on the value of the integer input `key`; nothing if there
    /// is no such input or it is not an integer. What is written through
    /// the handle becomes the input's value.
    pub fn get_int_mut(&mut self, key: &str) -> (r: Option<&mut i64>)
        requires
            old(self).wf(),
        ensures
            r is Some <==> (old(self)@.contains_key(key@) && old(self)@[key@] is Int),
            r matches Some(v) ==> *v == old(self)@[key@]->Int_0 && final(self).wf()
                && final(self)@ == old(self)@.insert(key@, InputValue::Int(*final(v))),
            r is None ==> *final(self) == *old(self),
    {
        match self.position(key) {
            Some(p) => {
                if let InputValue::Int(_) = self.inputs[p].1 {
                    let ghost es = self.entries();
                    let ghost before = self.inputs@;
                    let ghost name = self.inputs@[p as int].0;
                    let entry = vstd::std_specs::vec::vec_index_mut(&mut self.inputs, p);
                    match &mut entry.1 {
                        InputValue::Int(n) => {
                            proof {
                                lemma_entries_update(before, p as int, name, InputValue::Int(*final(n)));
                                lemma_update_value(es, p as int, InputValue::Int(*final(n)));
                            }
                            Some(n)
                        },
                        _ => None,
                    }
                } else {
                    None
                }
            },
            None => None,
        }
    }

    /// A handle on the value of the float input `key`; nothing if there
    /// is no such input or it is not a float. What is written through
    /// the handle becomes the input's value.
    pub fn get_float_mut(&mut self, key: &str) -> (r: Option<&mut Real>)
        requires
            old(self).wf(),
        ensures
            r is Some <==> (old(self)@.contains_key(key@) && old(self)@[key@] is Float),
            r matches Some(v) ==> *v == old(self)@[key@]->Float_0 && final(self).wf()
                && final(self)@ == old(self)@.insert(key@, InputValue::Float(*final(v))),
            r is None ==> *final(self) == *old(self),
    {
        match self.position(key) {
            Some(p) => {
                if let InputValue::Float(_) = self.inputs[p].1 {
                    let ghost es = self.entries();
                    let ghost before = self.inputs@;
                    let ghost name = self.inputs@[p as int].0;
                    let entry = vstd::std_specs::vec::vec_index_mut(&mut self.inputs, p);
                    match &mut entry.1 {
                        InputValue::Float(n) => {
                            proof {
                                lemma_entries_update(before, p as int, name, InputValue::Float(*final(n)));
                                lemma_update_value(es, p as int, InputValue::Float(*final(n)));
                            }
                            Some(n)
                        },
                        _ => None,
                    }
                } else {
                    None
                }
            },
            None => None,
        }
    }

    /// Binds `value` to the integer input `key`. Returns whether there was
    /// such an input; if not, nothing changes.
    pub fn set_int(&mut self, key: &str, value: i64) -> (r: bool)
        requires
            old(self).wf(),
        ensures
            final(self).wf(),
            r == (old(self)@.contains_key(key@) && old(self)@[key@] is Int),
            r ==> final(self)@ == old(self)@.insert(key@, InputValue::Int(value)),
            !r ==> final(self)@ == old(self)@,
    {
        match self.position(key) {
            Some(p) => {
                if let InputValue::Int(_) = self.inputs[p].1 {
                    self.replace_at(p, InputValue::Int(value));
                    true
                } else {
                    false
                }
            },
            None => false,
        }
    }

    /// Binds `value` to the float input `key`. Returns whether there was
    /// such an input; if not, nothing changes.
    pub fn set_float(&mut self, key: &str, value: Real) -> (r: bool)
        requires
            old(self).wf(),
        ensures
            final(self).wf(),
            r == (old(self)@.contains_key(key@) && old(self)@[key@] is Float),
            r ==> final(self)@ == old(self)@.insert(key@, InputValue::Float(value)),
            !r ==> final(self)@ == old(self)@,
    {
        match self.position(key) {
            Some(p) => {
                if let InputValue::Float(_) = self.inputs[p].1 {
                    self.replace_at(p, InputValue::Float(value));
                    true
                } else {
                    false
                }
            },
            None => false,
        }
    }
}


impl Inputs {
    /// The bound values in name order.
    pub fn bound_values(&self) -> (r: Vec<InputValue>)
        ensures
            r@ == self.values(),
    {
        let mut out: Vec<InputValue> = Vec::new();
        let mut k: usize = 0;
        while k < self.inputs.len()
            invariant
                k <= self.inputs@.len(),
                out@ == self.values().subrange(0, k as int),
            decreases self.inputs@.len() - k,
        {
            out.push(self.inputs[k].1);
            k = k + 1;
            assert(out@ =~= self.values().subrange(0, k as int));
        }
        assert(self.values().subrange(0, k as int) =~= self.values());
        out
    }
}


impl Default for InputMap {
    fn default() -> (r: InputMap)
        ensures
            r.wf(),
            r@ == Map::<Seq<char>, ExternalInput>::empty(),
    {
        InputMap::new()
    }
}

impl Default for Inputs {
    fn default() -> (r: Inputs)
        ensures
            r.wf(),
            r@ == Map::<Seq<char>, InputValue>::empty(),
    {
        Inputs::new()
    }
}


proof fn lemma_entries_update(before: Seq<(String, InputValue)>, p: int, name: String, v: InputValue)
    requires
        0 <= p < before.len(),
    ensures
        before.update(p, (name, v)).map_values(|q: (String, InputValue)| (q.0@, q.1))
            == before.map_values(|q: (String, InputValue)| (q.0@, q.1)).update(p, (name@, v)),
{
    assert(before.update(p, (name, v)).map_values(|q: (String, InputValue)| (q.0@, q.1))
        =~= before.map_values(|q: (String, InputValue)| (q.0@, q.1)).update(p, (name@, v)));
}

proof fn lemma_update_value<V>(es: Seq<(Seq<char>, V)>, p: int, v: V)
    requires
        sorted_unique(es),
        0 <= p < es.len(),
    ensures
        sorted_unique(es.update(p, (es[p].0, v))),
        map_of(es.update(p, (es[p].0, v))) == map_of(es).insert(es[p].0, v),
{
    let key = es[p].0;
    let es2 = es.update(p, (key, v));
    assert(sorted_unique(es2)) by {
        assert forall|i: int, j: int| 0 <= i < j < es2.len() implies name_less(
            #[trigger] es2[i].0,
            #[trigger] es2[j].0,
        ) by {
            assert(es2[i].0 == es[i].0 && es2[j].0 == es[j].0);
        }
    }
    assert forall|k: Seq<char>| #[trigger] map_of(es2).contains_key(k) == map_of(es).insert(
        key,
        v,
    ).contains_key(k) by {
        if has_name(es, k) {
            let i = choose|i: int| 0 <= i < es.len() && #[trigger] es[i].0 == k;
            assert(es2[i].0 == k);
        }
        if has_name(es2, k) {
            let i = choose|i: int| 0 <= i < es2.len() && #[trigger] es2[i].0 == k;
            assert(es[i].0 == k);
        }
    }
    assert forall|k: Seq<char>| #[trigger] map_of(es2).contains_key(k) implies map_of(es2)[k]
        == map_of(es).insert(key, v)[k] by {
        let i = choose|i: int| 0 <= i < es2.len() && #[trigger] es2[i].0 == k;
        lemma_map_of_at(es2, i);
        lemma_map_of_at(es, i);
        if i != p && k == key {
            lemma_unique_index(es2, i, p);
        }
    }
    assert(map_of(es2) =~= map_of(es).insert(key, v));
}

/// Two stores over the same input names hold the same values in name
/// order exactly when they bind every input to the same value.
pub proof fn lemma_values_track_bindings(a: &Inputs, b: &Inputs)
    requires
        a.wf(),
        b.wf(),
        a@.dom() == b@.dom(),
    ensures
        a.values() == b.values() <==> a@ == b@,
{
    let ea = a.entries();
    let eb = b.entries();
    let ua = ea.map_values(|p: (Seq<char>, InputValue)| (p.0, ()));
    let ub = eb.map_values(|p: (Seq<char>, InputValue)| (p.0, ()));
    assert(sorted_unique(ua)) by {
        assert forall|i: int, j: int| 0 <= i < j < ua.len() implies name_less(
            #[trigger] ua[i].0,
            #[trigger] ua[j].0,
        ) by {
            assert(ua[i].0 == ea[i].0 && ua[j].0 == ea[j].0);
        }
    }
    assert(sorted_unique(ub)) by {
        assert forall|i: int, j: int| 0 <= i < j < ub.len() implies name_less(
            #[trigger] ub[i].0,
            #[trigger] ub[j].0,
        ) by {
            assert(ub[i].0 == eb[i].0 && ub[j].0 == eb[j].0);
        }
    }
    assert forall|k: Seq<char>| #[trigger] map_of(ua).contains_key(k) == map_of(ub).contains_key(
        k,
    ) by {
        if has_name(ua, k) {
            let i = choose|i: int| 0 <= i < ua.len() && #[trigger] ua[i].0 == k;
            assert(ea[i].0 == k);
            assert(a@.contains_key(k));
            assert(b@.contains_key(k));
            let j = choose|j: int| 0 <= j < eb.len() && #[trigger] eb[j].0 == k;
            assert(ub[j].0 == k);
        }
        if has_name(ub, k) {
            let j = choose|j: int| 0 <= j < ub.len() && #[trigger] ub[j].0 == k;
            assert(eb[j].0 == k);
            assert(b@.contains_key(k));
            assert(a@.contains_key(k));
            let i = choose|i: int| 0 <= i < ea.len() && #[trigger] ea[i].0 == k;
            assert(ua[i].0 == k);
        }
    }
    assert(map_of(ua) =~= map_of(ub));
    lemma_canonical(ua, ub);
    assert forall|i: int| 0 <= i < ea.len() implies #[trigger] ea[i].0 == eb[i].0 by {
        assert(ua[i] == ub[i]);
    }
    if a.values() == b.values() {
        assert forall|i: int| 0 <= i < ea.len() implies #[trigger] ea[i] == eb[i] by {
            assert(ea[i].1 == a.values()[i]);
            assert(eb[i].1 == b.values()[i]);
        }
        assert(ea =~= eb);
    }
    if a@ == b@ {
        lemma_canonical(ea, eb);
        assert forall|i: int| 0 <= i < a.values().len() implies #[trigger] a.values()[i]
            == b.values()[i] by {
            assert(ea[i].1 == a.values()[i]);
            assert(eb[i].1 == b.values()[i]);
        }
        assert(a.values() =~= b.values());
    }
}

} // verus!
