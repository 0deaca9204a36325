//! The JSON-like value tree that payloads and response bodies are modelled
//! with: a tagged variant over strings, numbers, booleans, null, arrays and
//! objects. Numbers are carried as their literal text, so no information is
//! lost whatever the source wrote.

use vstd::prelude::*;
use crate::store::VarStore;
use crate::text;

verus! {

/// A structured value: the payload of a step, or a parsed response body.
/// `deep_copy` stands in for `Clone`, with its contract stated.
pub enum JsonValue {
    Null,
    Bool(bool),
    /// A number, kept as its rendered text (for instance `"42"` or `"-1.5"`).
    Num(String),
    Str(String),
    Arr(Vec<JsonValue>),
    Obj(Vec<(String, JsonValue)>),
}

/// The mathematical model of a `JsonValue`: the same tree over `Seq<char>`.
pub enum JsonModel {
    Null,
    Bool(bool),
    Num(Seq<char>),
    Str(Seq<char>),
    Arr(Seq<JsonModel>),
    Obj(Seq<(Seq<char>, JsonModel)>),
}

pub open spec fn model(v: JsonValue) -> JsonModel
    decreases v,
{
    match v {
        JsonValue::Null => JsonModel::Null,
        JsonValue::Bool(b) => JsonModel::Bool(b),
        JsonValue::Num(s) => JsonModel::Num(s@),
        JsonValue::Str(s) => JsonModel::Str(s@),
        JsonValue::Arr(elems) => JsonModel::Arr(model_seq(elems@)),
        JsonValue::Obj(entries) => JsonModel::Obj(model_entries(entries@)),
    }
}

pub open spec fn model_seq(elems: Seq<JsonValue>) -> Seq<JsonModel>
    decreases elems,
{
    if elems.len() == 0 {
        Seq::empty()
    } else {
        seq![model(elems[0])] + model_seq(elems.skip(1))
    }
}

pub open spec fn model_entries(entries: Seq<(String, JsonValue)>) -> Seq<(Seq<char>, JsonModel)>
    decreases entries,
{
    if entries.len() == 0 {
        Seq::empty()
    } else {
        seq![(entries[0].0@, model(entries[0].1))] + model_entries(entries.skip(1))
    }
}

impl View for JsonValue {
    type V = JsonModel;

    open spec fn view(&self) -> JsonModel {
        model(*self)
    }
}

pub broadcast proof fn lemma_model_seq_len(elems: Seq<JsonValue>)
    ensures
        #[trigger] model_seq(elems).len() == elems.len(),
    decreases elems,
{
    if elems.len() > 0 {
        lemma_model_seq_len(elems.skip(1));
    }
}

pub broadcast proof fn lemma_model_seq_index(elems: Seq<JsonValue>, i: int)
    requires
        0 <= i < elems.len(),
    ensures
        #[trigger] model_seq(elems)[i] == model(elems[i]),
    decreases elems,
{
    lemma_model_seq_len(elems);
    if i > 0 {
        lemma_model_seq_index(elems.skip(1), i - 1);
    }
}

pub broadcast proof fn lemma_model_entries_len(entries: Seq<(String, JsonValue)>)
    ensures
        #[trigger] model_entries(entries).len() == entries.len(),
    decreases entries,
{
    if entries.len() > 0 {
        lemma_model_entries_len(entries.skip(1));
    }
}

pub broadcast proof fn lemma_model_entries_index(entries: Seq<(String, JsonValue)>, i: int)
    requires
        0 <= i < entries.len(),
    ensures
        #[trigger] model_entries(entries)[i] == (entries[i].0@, model(entries[i].1)),
    decreases entries,
{
    lemma_model_entries_len(entries);
    if i > 0 {
        lemma_model_entries_index(entries.skip(1), i - 1);
    }
}

impl JsonValue {
    /// A structurally identical copy of the tree.
    #[verifier::loop_isolation(false)]
    pub fn deep_copy(&self) -> (r: JsonValue)
        ensures
            r@ == self@,
        decreases self,
    {
        broadcast use lemma_model_seq_index, lemma_model_seq_len, lemma_model_entries_index, lemma_model_entries_len;
        broadcast use vstd::std_specs::vec::group_vec_axioms;

        match self {
            JsonValue::Null => JsonValue::Null,
            JsonValue::Bool(b) => JsonValue::Bool(*b),
            JsonValue::Num(s) => JsonValue::Num(s.clone()),
            JsonValue::Str(s) => JsonValue::Str(s.clone()),
            JsonValue::Arr(elems) => {
                let mut out: Vec<JsonValue> = Vec::new();
                let mut i: usize = 0;
                while i < elems.len()
                    invariant
                        i <= elems.len(),
                        out@.len() == i,
                        forall|k: int| 0 <= k < i ==> out@[k]@ == model(elems@[k]),
                    decreases elems.len() - i,
                {
                    proof {
                        assert(*elems == self->Arr_0);
                        assert(decreases_to!(*self => self->Arr_0));
                        assert(decreases_to!(self->Arr_0 => self->Arr_0@));
                        assert(decreases_to!(self->Arr_0@ => self->Arr_0@[i as int]));
                    }
                    out.push(elems[i].deep_copy());
                    i = i + 1;
                }
                proof {
                    assert(model_seq(out@) =~= model_seq(elems@)) by {
                        lemma_model_seq_eq(out@, elems@);
                    }
                }
                JsonValue::Arr(out)
            }
            JsonValue::Obj(entries) => {
                let mut out: Vec<(String, JsonValue)> = Vec::new();
                let mut i: usize = 0;
                while i < entries.len()
                    invariant
                        i <= entries.len(),
                        out@.len() == i,
                        forall|k: int| 0 <= k < i ==> out@[k].0@ == entries@[k].0@
                            && out@[k].1@ == model(entries@[k].1),
                    decreases entries.len() - i,
                {
                    proof {
                        assert(*entries == self->Obj_0);
                        assert(decreases_to!(*self => self->Obj_0));
                        assert(decreases_to!(self->Obj_0 => self->Obj_0@));
                        assert(decreases_to!(self->Obj_0@ => self->Obj_0@[i as int]));
                        assert(decreases_to!(self->Obj_0@[i as int] => self->Obj_0@[i as int].1));
                    }
                    let copied = entries[i].1.deep_copy();
                    out.push((entries[i].0.clone(), copied));
                    i = i + 1;
                }
                proof {
                    assert(model_entries(out@) =~= model_entries(entries@)) by {
                        lemma_model_entries_eq(out@, entries@);
                    }
                }
                JsonValue::Obj(out)
            }
        }
    }
}

/// How one character is written inside a rendered JSON string literal.
pub open spec fn escape_char(c: char) -> Seq<char> {
    if c == '"' {
        seq!['\\', '"']
    } else if c == '\\' {
        seq!['\\', '\\']
    } else if c == '\n' {
        seq!['\\', 'n']
    } else if c == '\t' {
        seq!['\\', 't']
    } else if c == '\r' {
        seq!['\\', 'r']
    } else {
        seq![c]
    }
}

/// How a whole string is written inside a rendered JSON string literal.
pub open spec fn escape(s: Seq<char>) -> Seq<char>
    decreases s.len(),
{
    if s.len() == 0 {
        Seq::empty()
    } else {
        escape_char(s[0]) + escape(s.skip(1))
    }
}

/// The compact JSON text of a tree.
pub open spec fn render(m: JsonModel) -> Seq<char>
    decreases m,
{
    match m {
        JsonModel::Null => seq!['n', 'u', 'l', 'l'],
        JsonModel::Bool(b) => if b {
            seq!['t', 'r', 'u', 'e']
        } else {
            seq!['f', 'a', 'l', 's', 'e']
        },
        JsonModel::Num(s) => s,
        JsonModel::Str(s) => seq!['"'] + escape(s) + seq!['"'],
        JsonModel::Arr(elems) => seq!['['] + render_elems(elems, 0) + seq![']'],
        JsonModel::Obj(entries) => seq!['{'] + render_entries(entries, 0) + seq!['}'],
    }
}

/// The rendered elements of an array from index `i` on, comma separated.
pub open spec fn render_elems(elems: Seq<JsonModel>, i: int) -> Seq<char>
    decreases elems, elems.len() - i,
{
    if i < 0 || i >= elems.len() {
        Seq::empty()
    } else if i == 0 {
        render(elems[0]) + render_elems(elems, 1)
    } else {
        seq![','] + render(elems[i]) + render_elems(elems, i + 1)
    }
}

/// The rendered members of an object from index `i` on, comma separated.
pub open spec fn render_entries(entries: Seq<(Seq<char>, JsonModel)>, i: int) -> Seq<char>
    decreases entries, entries.len() - i,
{
    if i < 0 || i >= entries.len() {
        Seq::empty()
    } else {
        let one = seq!['"'] + escape(entries[i].0) + seq!['"', ':'] + render(entries[i].1);
        if i == 0 {
            one + render_entries(entries, 1)
        } else {
            seq![','] + one + render_entries(entries, i + 1)
        }
    }
}

/// The text a saved value takes: a string leaf is saved as it is, any other
/// tree as its compact JSON text.
pub open spec fn stringify(m: JsonModel) -> Seq<char> {
    match m {
        JsonModel::Str(s) => s,
        _ => render(m),
    }
}

/// The tree after one substitution pass: every string leaf is rewritten by
/// `text::subst`, object keys and all other leaves stay.
pub open spec fn subst_model(m: JsonModel, vars: Map<Seq<char>, Seq<char>>) -> JsonModel
    decreases m,
{
    match m {
        JsonModel::Str(s) => JsonModel::Str(text::subst(s, vars)),
        JsonModel::Arr(elems) => JsonModel::Arr(subst_model_seq(elems, vars)),
        JsonModel::Obj(entries) => JsonModel::Obj(subst_model_entries(entries, vars)),
        _ => m,
    }
}

pub open spec fn subst_model_seq(elems: Seq<JsonModel>, vars: Map<Seq<char>, Seq<char>>) -> Seq<
    JsonModel,
>
    decreases elems,
{
    if elems.len() == 0 {
        Seq::empty()
    } else {
        seq![subst_model(elems[0], vars)] + subst_model_seq(elems.skip(1), vars)
    }
}

pub open spec fn subst_model_entries(
    entries: Seq<(Seq<char>, JsonModel)>,
    vars: Map<Seq<char>, Seq<char>>,
) -> Seq<(Seq<char>, JsonModel)>
    decreases entries,
{
    if entries.len() == 0 {
        Seq::empty()
    } else {
        seq![(entries[0].0, subst_model(entries[0].1, vars))] + subst_model_entries(
            entries.skip(1),
            vars,
        )
    }
}

pub broadcast proof fn lemma_subst_model_seq_len(
    elems: Seq<JsonModel>,
    vars: Map<Seq<char>, Seq<char>>,
)
    ensures
        #[trigger] subst_model_seq(elems, vars).len() == elems.len(),
    decreases elems,
{
    if elems.len() > 0 {
        lemma_subst_model_seq_len(elems.skip(1), vars);
    }
}

pub broadcast proof fn lemma_subst_model_seq_index(
    elems: Seq<JsonModel>,
    vars: Map<Seq<char>, Seq<char>>,
    i: int,
)
    requires
        0 <= i < elems.len(),
    ensures
        #[trigger] subst_model_seq(elems, vars)[i] == subst_model(elems[i], vars),
    decreases elems,
{
    lemma_subst_model_seq_len(elems, vars);
    if i > 0 {
        lemma_subst_model_seq_index(elems.skip(1), vars, i - 1);
    }
}

pub broadcast proof fn lemma_subst_model_entries_len(
    entries: Seq<(Seq<char>, JsonModel)>,
    vars: Map<Seq<char>, Seq<char>>,
)
    ensures
        #[trigger] subst_model_entries(entries, vars).len() == entries.len(),
    decreases entries,
{
    if entries.len() > 0 {
        lemma_subst_model_entries_len(entries.skip(1), vars);
    }
}

pub broadcast proof fn lemma_subst_model_entries_index(
    entries: Seq<(Seq<char>, JsonModel)>,
    vars: Map<Seq<char>, Seq<char>>,
    i: int,
)
    requires
        0 <= i < entries.len(),
    ensures
        #[trigger] subst_model_entries(entries, vars)[i] == (
            entries[i].0,
            subst_model(entries[i].1, vars),
        ),
    decreases entries,
{
    lemma_subst_model_entries_len(entries, vars);
    if i > 0 {
        lemma_subst_model_entries_index(entries.skip(1), vars, i - 1);
    }
}

/// Whether some string leaf of `m` holds a placeholder that `vars` binds.
/// Object keys do not count: substitution never rewrites them.
pub open spec fn tree_has_bound_placeholder(m: JsonModel, vars: Map<Seq<char>, Seq<char>>) -> bool
    decreases m,
{
    match m {
        JsonModel::Str(s) => text::has_bound_placeholder(s, vars),
        JsonModel::Arr(elems) => seq_has_bound_placeholder(elems, vars),
        JsonModel::Obj(entries) => entries_has_bound_placeholder(entries, vars),
        _ => false,
    }
}

pub open spec fn seq_has_bound_placeholder(
    elems: Seq<JsonModel>,
    vars: Map<Seq<char>, Seq<char>>,
) -> bool
    decreases elems,
{
    if elems.len() == 0 {
        false
    } else {
        tree_has_bound_placeholder(elems[0], vars) || seq_has_bound_placeholder(
            elems.skip(1),
            vars,
        )
    }
}

pub open spec fn entries_has_bound_placeholder(
    entries: Seq<(Seq<char>, JsonModel)>,
    vars: Map<Seq<char>, Seq<char>>,
) -> bool
    decreases entries,
{
    if entries.len() == 0 {
        false
    } else {
        tree_has_bound_placeholder(entries[0].1, vars) || entries_has_bound_placeholder(
            entries.skip(1),
            vars,
        )
    }
}

/// A payload tree none of whose string leaves holds a bound placeholder
/// substitutes to itself — substitution is idempotent on such trees, and
/// unbound placeholders stay verbatim.
pub proof fn lemma_subst_model_identity(m: JsonModel, vars: Map<Seq<char>, Seq<char>>)
    requires
        !tree_has_bound_placeholder(m, vars),
    ensures
        subst_model(m, vars) == m,
    decreases m,
{
    match m {
        JsonModel::Str(s) => {
            text::lemma_subst_identity(s, vars);
        }
        JsonModel::Arr(elems) => {
            lemma_subst_model_seq_identity(elems, vars);
        }
        JsonModel::Obj(entries) => {
            lemma_subst_model_entries_identity(entries, vars);
        }
        _ => {}
    }
}

proof fn lemma_subst_model_seq_identity(elems: Seq<JsonModel>, vars: Map<Seq<char>, Seq<char>>)
    requires
        !seq_has_bound_placeholder(elems, vars),
    ensures
        subst_model_seq(elems, vars) == elems,
    decreases elems,
{
    if elems.len() == 0 {
        assert(subst_model_seq(elems, vars) =~= elems);
    } else {
        lemma_subst_model_identity(elems[0], vars);
        lemma_subst_model_seq_identity(elems.skip(1), vars);
        assert(subst_model_seq(elems, vars) =~= elems);
    }
}

proof fn lemma_subst_model_entries_identity(
    entries: Seq<(Seq<char>, JsonModel)>,
    vars: Map<Seq<char>, Seq<char>>,
)
    requires
        !entries_has_bound_placeholder(entries, vars),
    ensures
        subst_model_entries(entries, vars) == entries,
    decreases entries,
{
    if entries.len() == 0 {
        assert(subst_model_entries(entries, vars) =~= entries);
    } else {
        lemma_subst_model_identity(entries[0].1, vars);
        lemma_subst_model_entries_identity(entries.skip(1), vars);
        assert(subst_model_entries(entries, vars) =~= entries);
    }
}

/// The characters of `s` as they stand inside a rendered JSON string literal.
#[verifier::loop_isolation(false)]
fn escape_str(s: &str) -> (r: String)
    ensures
        r@ == escape(s@),
{
    let len = s.unicode_len();
    let mut out = String::new();
    let mut i: usize = 0;
    proof {
        assert(s@.skip(0) =~= s@);
    }
    while i < len
        invariant
            i <= len,
            escape(s@) == out@ + escape(s@.skip(i as int)),
        decreases len - i,
    {
        let c = s.get_char(i);
        proof {
            assert(s@.skip(i as int)[0] == c);
            assert(s@.skip(i as int).skip(1) =~= s@.skip(i as int + 1));
            assert(escape(s@.skip(i as int)) == escape_char(c) + escape(s@.skip(i as int + 1)));
        }
        if c == '"' {
            proof {
                reveal_strlit("\\\"");
                assert("\\\""@ =~= escape_char(c));
            }
            out.append("\\\"");
        } else if c == '\\' {
            proof {
                reveal_strlit("\\\\");
                assert("\\\\"@ =~= escape_char(c));
            }
            out.append("\\\\");
        } else if c == '\n' {
            proof {
                reveal_strlit("\\n");
                assert("\\n"@ =~= escape_char(c));
            }
            out.append("\\n");
        } else if c == '\t' {
            proof {
                reveal_strlit("\\t");
                assert("\\t"@ =~= escape_char(c));
            }
            out.append("\\t");
        } else if c == '\r' {
            proof {
                reveal_strlit("\\r");
                assert("\\r"@ =~= escape_char(c));
            }
            out.append("\\r");
        } else {
            let one = s.substring_char(i, i + 1);
            proof {
                assert(one@ =~= escape_char(c));
            }
            out.append(one);
        }
        proof {
            assert(escape(s@) =~= out@ + escape(s@.skip(i as int + 1)));
        }
        i = i + 1;
    }
    proof {
        assert(escape(s@.skip(len as int)) == Seq::<char>::empty());
        assert(escape(s@) =~= out@);
    }
    out
}

impl JsonValue {
    /// The compact JSON text of this tree.
    #[verifier::loop_isolation(false)]
    pub fn to_text(&self) -> (r: String)
        ensures
            r@ == render(self@),
        decreases self,
    {
        broadcast use lemma_model_seq_index, lemma_model_seq_len, lemma_model_entries_index, lemma_model_entries_len;
        broadcast use vstd::std_specs::vec::group_vec_axioms;

        match self {
            JsonValue::Null => {
                let out = String::from_str("null");
                proof {
                    reveal_strlit("null");
                    assert(out@ =~= render(self@));
                }
                out
            }
            JsonValue::Bool(b) => {
                if *b {
                    let out = String::from_str("true");
                    proof {
                        reveal_strlit("true");
                        assert(out@ =~= render(self@));
                    }
                    out
                } else {
                    let out = String::from_str("false");
                    proof {
                        reveal_strlit("false");
                        assert(out@ =~= render(self@));
                    }
                    out
                }
            }
            JsonValue::Num(s) => s.clone(),
            JsonValue::Str(s) => {
                let mut out = String::from_str("\"");
                proof {
                    reveal_strlit("\"");
                    assert(out@ =~= seq!['"']);
                }
                let body = escape_str(s.as_str());
                out.append(body.as_str());
                out.append("\"");
                proof {
                    assert(out@ =~= render(self@));
                }
                out
            }
            JsonValue::Arr(elems) => {
                let ghost ms = model_seq(elems@);
                let mut out = String::from_str("[");
                proof {
                    reveal_strlit("[");
                    assert(out@ =~= seq!['[']);
                    assert(render(self@) =~= out@ + render_elems(ms, 0) + seq![']']);
                }
                let mut i: usize = 0;
                while i < elems.len()
                    invariant
                        i <= elems.len(),
                        render(self@) == out@ + render_elems(ms, i as int) + seq![']'],
                    decreases elems.len() - i,
                {
                    if i > 0 {
                        out.append(",");
                        proof {
                            reveal_strlit(",");
                        }
                    }
                    proof {
                        assert(decreases_to!(*self => self->Arr_0));
                        assert(decreases_to!(self->Arr_0 => self->Arr_0@));
                        assert(decreases_to!(self->Arr_0@ => self->Arr_0@[i as int]));
                    }
                    let piece = elems[i].to_text();
                    out.append(piece.as_str());
                    proof {
                        assert(piece@ == render(ms[i as int]));
                        assert(render(self@) =~= out@ + render_elems(ms, i as int + 1) + seq![
                            ']',
                        ]);
                    }
                    i = i + 1;
                }
                out.append("]");
                proof {
                    reveal_strlit("]");
                    assert(render_elems(ms, i as int) == Seq::<char>::empty());
                    assert(out@ =~= render(self@));
                }
                out
            }
            JsonValue::Obj(entries) => {
                let ghost ms = model_entries(entries@);
                let mut out = String::from_str("{");
                proof {
                    reveal_strlit("{");
                    assert(out@ =~= seq!['{']);
                    assert(render(self@) =~= out@ + render_entries(ms, 0) + seq!['}']);
                }
                let mut i: usize = 0;
                while i < entries.len()
                    invariant
                        i <= entries.len(),
                        render(self@) == out@ + render_entries(ms, i as int) + seq!['}'],
                    decreases entries.len() - i,
                {
                    if i > 0 {
                        out.append(",");
                        proof {
                            reveal_strlit(",");
                        }
                    }
                    out.append("\"");
                    let key = escape_str(entries[i].0.as_str());
                    out.append(key.as_str());
                    out.append("\":");
                    proof {
                        reveal_strlit("\"");
                        reveal_strlit("\":");
                    }
                    proof {
                        assert(decreases_to!(*self => self->Obj_0));
                        assert(decreases_to!(self->Obj_0 => self->Obj_0@));
                        assert(decreases_to!(self->Obj_0@ => self->Obj_0@[i as int]));
                        assert(decreases_to!(self->Obj_0@[i as int] => self->Obj_0@[i as int].1));
                    }
                    let piece = entries[i].1.to_text();
                    out.append(piece.as_str());
                    proof {
                        assert(piece@ == render(ms[i as int].1));
                        assert(ms[i as int].0 == entries@[i as int].0@);
                        assert(render(self@) =~= out@ + render_entries(ms, i as int + 1) + seq![
                            '}',
                        ]);
                    }
                    i = i + 1;
                }
                out.append("}");
                proof {
                    reveal_strlit("}");
                    assert(render_entries(ms, i as int) == Seq::<char>::empty());
                    assert(out@ =~= render(self@));
                }
                out
            }
        }
    }

    /// This tree after one substitution pass of `vars` over its string leaves.
    #[verifier::loop_isolation(false)]
    pub fn substitute(&self, vars: &VarStore) -> (r: JsonValue)
        ensures
            r@ == subst_model(self@, vars@),
        decreases self,
    {
        broadcast use lemma_model_seq_index, lemma_model_seq_len, lemma_model_entries_index, lemma_model_entries_len;
        broadcast use lemma_subst_model_seq_index, lemma_subst_model_seq_len, lemma_subst_model_entries_index, lemma_subst_model_entries_len;
        broadcast use vstd::std_specs::vec::group_vec_axioms;

        match self {
            JsonValue::Null => JsonValue::Null,
            JsonValue::Bool(b) => JsonValue::Bool(*b),
            JsonValue::Num(s) => JsonValue::Num(s.clone()),
            JsonValue::Str(s) => JsonValue::Str(crate::text::substitute_str(s.as_str(), vars)),
            JsonValue::Arr(elems) => {
                let mut out: Vec<JsonValue> = Vec::new();
                let mut i: usize = 0;
                while i < elems.len()
                    invariant
                        i <= elems.len(),
                        out@.len() == i,
                        forall|k: int|
                            0 <= k < i ==> out@[k]@ == subst_model(model(elems@[k]), vars@),
                    decreases elems.len() - i,
                {
                    proof {
                        assert(decreases_to!(*self => self->Arr_0));
                        assert(decreases_to!(self->Arr_0 => self->Arr_0@));
                        assert(decreases_to!(self->Arr_0@ => self->Arr_0@[i as int]));
                    }
                    out.push(elems[i].substitute(vars));
                    i = i + 1;
                }
                proof {
                    assert(model_seq(out@) =~= subst_model_seq(model_seq(elems@), vars@));
                }
                JsonValue::Arr(out)
            }
            JsonValue::Obj(entries) => {
                let mut out: Vec<(String, JsonValue)> = Vec::new();
                let mut i: usize = 0;
                while i < entries.len()
                    invariant
                        i <= entries.len(),
                        out@.len() == i,
                        forall|k: int|
                            0 <= k < i ==> out@[k].0@ == entries@[k].0@ && out@[k].1@
                                == subst_model(model(entries@[k].1), vars@),
                    decreases entries.len() - i,
                {
                    proof {
                        assert(decreases_to!(*self => self->Obj_0));
                        assert(decreases_to!(self->Obj_0 => self->Obj_0@));
                        assert(decreases_to!(self->Obj_0@ => self->Obj_0@[i as int]));
                        assert(decreases_to!(self->Obj_0@[i as int] => self->Obj_0@[i as int].1));
                    }
                    let replaced = entries[i].1.substitute(vars);
                    out.push((entries[i].0.clone(), replaced));
                    i = i + 1;
                }
                proof {
                    assert(model_entries(out@) =~= subst_model_entries(
                        model_entries(entries@),
                        vars@,
                    ));
                }
                JsonValue::Obj(out)
            }
        }
    }
}

/// Two element sequences whose members model alike have the same model.
proof fn lemma_model_seq_eq(a: Seq<JsonValue>, b: Seq<JsonValue>)
    requires
        a.len() == b.len(),
        forall|k: int| 0 <= k < a.len() ==> model(a[k]) == model(b[k]),
    ensures
        model_seq(a) =~= model_seq(b),
{
    broadcast use lemma_model_seq_index, lemma_model_seq_len;

}

/// Two entry sequences whose keys agree and whose values model alike have the
/// same model.
proof fn lemma_model_entries_eq(a: Seq<(String, JsonValue)>, b: Seq<(String, JsonValue)>)
    requires
        a.len() == b.len(),
        forall|k: int| 0 <= k < a.len() ==> a[k].0@ == b[k].0@ && model(a[k].1) == model(b[k].1),
    ensures
        model_entries(a) =~= model_entries(b),
{
    broadcast use lemma_model_entries_index, lemma_model_entries_len;

}

} // verus!
