use vstd::prelude::*;

use crate::error::TaskVimError;
use crate::text::{match_at, contains_seq, find_sub};

verus! {

/// A comparison operator of a filter predicate.
#[derive(Debug, Clone, Copy, PartialEq, Eq, Structural)]
pub enum Operator {
    Eq,
    Neq,
    Gt,
    Lt,
    Gte,
    Lte,
    Contains,
}

impl Operator {
    /// The SQL spelling of an operator.
    pub open spec fn sql_view(self) -> Seq<char> {
        match self {
            Operator::Eq => "="@,
            Operator::Neq => "!="@,
            Operator::Gt => ">"@,
            Operator::Lt => "<"@,
            Operator::Gte => ">="@,
            Operator::Lte => "<="@,
            Operator::Contains => "LIKE"@,
        }
    }

    pub fn to_sql(&self) -> (r: &'static str)
        ensures
            r@ == self.sql_view(),
    {
        match self {
            Operator::Eq => "=",
            Operator::Neq => "!=",
            Operator::Gt => ">",
            Operator::Lt => "<",
            Operator::Gte => ">=",
            Operator::Lte => "<=",
            Operator::Contains => "LIKE",
        }
    }

    /// The operator a textual spelling denotes, if any.
    pub open spec fn of_str(s: Seq<char>) -> Option<Operator> {
        if s == "="@ {
            Some(Operator::Eq)
        } else if s == "!="@ {
            Some(Operator::Neq)
        } else if s == ">"@ {
            Some(Operator::Gt)
        } else if s == "<"@ {
            Some(Operator::Lt)
        } else if s == ">="@ {
            Some(Operator::Gte)
        } else if s == "<="@ {
            Some(Operator::Lte)
        } else if s == "contains"@ {
            Some(Operator::Contains)
        } else {
            None
        }
    }

    pub fn from_str(s: &str) -> (r: Option<Operator>)
        ensures
            r == Operator::of_str(s@),
    {
        if crate::text::str_eq(s, "=") {
            Some(Operator::Eq)
        } else if crate::text::str_eq(s, "!=") {
            Some(Operator::Neq)
        } else if crate::text::str_eq(s, ">") {
            Some(Operator::Gt)
        } else if crate::text::str_eq(s, "<") {
            Some(Operator::Lt)
        } else if crate::text::str_eq(s, ">=") {
            Some(Operator::Gte)
        } else if crate::text::str_eq(s, "<=") {
            Some(Operator::Lte)
        } else if crate::text::str_eq(s, "contains") {
            Some(Operator::Contains)
        } else {
            None
        }
    }
}

/// A single predicate of a filter expression: `field operator value`.
/// A filter expression is a conjunction of predicates.
#[derive(Debug)]
pub struct Filter {
    pub field: String,
    pub operator: Operator,
    pub value: String,
}

/// The mathematical value of a predicate.
#[verifier::ext_equal]
pub struct FilterView {
    pub field: Seq<char>,
    pub operator: Operator,
    pub value: Seq<char>,
}

impl View for Filter {
    type V = FilterView;

    open spec fn view(&self) -> FilterView {
        FilterView { field: self.field@, operator: self.operator, value: self.value@ }
    }
}

/// The views of a parsed predicate list.
pub open spec fn filters_view(v: Seq<Filter>) -> Seq<FilterView> {
    v.map_values(|f: Filter| f@)
}

/// Whitespace for the purposes of tokenizing a filter expression.
pub open spec fn is_space(c: char) -> bool {
    c == ' ' || c == '\t' || c == '\n' || c == '\r'
}

/// The first index at or after `i` holding a non-space character.
pub open spec fn skip_spaces(s: Seq<char>, i: int) -> int
    decreases s.len() - i when 0 <= i <= s.len()
{
    if i >= s.len() {
        i
    } else if is_space(s[i]) {
        skip_spaces(s, i + 1)
    } else {
        i
    }
}

/// The first index at or after `i` holding a space, or the length.
pub open spec fn token_end(s: Seq<char>, i: int) -> int
    decreases s.len() - i when 0 <= i <= s.len()
{
    if i >= s.len() {
        i
    } else if is_space(s[i]) {
        i
    } else {
        token_end(s, i + 1)
    }
}

/// The whitespace-separated tokens of `s` from index `i` on.
pub open spec fn tokens_from(s: Seq<char>, i: int) -> Seq<Seq<char>>
    decreases s.len() - i when 0 <= i <= s.len()
{
    let j = skip_spaces(s, i);
    if !(i <= j < s.len()) {
        Seq::empty()
    } else {
        let e = token_end(s, j);
        if j < e <= s.len() {
            seq![s.subrange(j, e)] + tokens_from(s, e)
        } else {
            Seq::empty()
        }
    }
}

/// The index of the first occurrence of `n` in `h` at or after `i`,
/// or -1 when there is none.
pub open spec fn first_occ(h: Seq<char>, n: Seq<char>, i: int) -> int
    decreases h.len() - i when 0 <= i
{
    if i + n.len() > h.len() {
        -1
    } else if match_at(h, n, i) {
        i
    } else {
        first_occ(h, n, i + 1)
    }
}

/// The predicate a single token denotes, if any. Multi-character operator
/// spellings are recognized before single-character ones, so that `>=`
/// is never read as `>`; the token splits at the first occurrence of the
/// recognized spelling; a token containing no operator denotes nothing.
pub open spec fn parse_token(tok: Seq<char>) -> Option<FilterView> {
    let i_gte = first_occ(tok, ">="@, 0);
    let i_lte = first_occ(tok, "<="@, 0);
    let i_neq = first_occ(tok, "!="@, 0);
    let i_con = first_occ(tok, "contains"@, 0);
    let i_eq = first_occ(tok, "="@, 0);
    let i_gt = first_occ(tok, ">"@, 0);
    let i_lt = first_occ(tok, "<"@, 0);
    if i_gte >= 0 {
        Some(split_token(tok, i_gte, 2, Operator::Gte))
    } else if i_lte >= 0 {
        Some(split_token(tok, i_lte, 2, Operator::Lte))
    } else if i_neq >= 0 {
        Some(split_token(tok, i_neq, 2, Operator::Neq))
    } else if i_con >= 0 {
        Some(split_token(tok, i_con, 8, Operator::Contains))
    } else if i_eq >= 0 {
        Some(split_token(tok, i_eq, 1, Operator::Eq))
    } else if i_gt >= 0 {
        Some(split_token(tok, i_gt, 1, Operator::Gt))
    } else if i_lt >= 0 {
        Some(split_token(tok, i_lt, 1, Operator::Lt))
    } else {
        None
    }
}

/// The predicate formed by splitting `tok` at an operator occupying
/// `[i, i + oplen)`.
pub open spec fn split_token(tok: Seq<char>, i: int, oplen: int, op: Operator) -> FilterView {
    FilterView { field: tok.take(i), operator: op, value: tok.skip(i + oplen) }
}

/// The predicates denoted by a token list, in order.
pub open spec fn parse_tokens(ts: Seq<Seq<char>>) -> Seq<FilterView>
    decreases ts.len(),
{
    if ts.len() == 0 {
        Seq::empty()
    } else {
        (match parse_token(ts[0]) {
            Some(f) => seq![f],
            None => Seq::<FilterView>::empty(),
        }) + parse_tokens(ts.drop_first())
    }
}

/// The predicate list denoted by a whole filter expression.
pub open spec fn spec_parse(s: Seq<char>) -> Seq<FilterView> {
    parse_tokens(tokens_from(s, 0))
}

/// The physical column a filter field maps to, if it is usable: `tag` is
/// recognized but deliberately unusable, and anything else unknown.
pub open spec fn column_of(f: Seq<char>) -> Option<Seq<char>> {
    if f == "status"@ {
        Some("status"@)
    } else if f == "priority"@ {
        Some("priority"@)
    } else if f == "project"@ {
        Some("project"@)
    } else if f == "due"@ {
        Some("due_date"@)
    } else if f == "created"@ {
        Some("created_at"@)
    } else {
        None
    }
}

/// Generalization of `find_sub`'s postcondition to `first_occ`.
proof fn lemma_first_occ_from(h: Seq<char>, n: Seq<char>, i: int, m: int)
    requires
        0 <= i <= m,
        match_at(h, n, m),
        forall|k: int| i <= k < m ==> !match_at(h, n, k),
    ensures
        first_occ(h, n, i) == m,
    decreases m - i,
{
    if i < m {
        lemma_first_occ_from(h, n, i + 1, m);
    }
}

proof fn lemma_first_occ_none(h: Seq<char>, n: Seq<char>, i: int)
    requires
        0 <= i,
        forall|k: int| i <= k ==> !match_at(h, n, k),
    ensures
        first_occ(h, n, i) == -1,
    decreases h.len() + 1 - i,
{
    if i + n.len() <= h.len() {
        lemma_first_occ_none(h, n, i + 1);
    }
}

/// `first_occ` agrees with what `find_sub` reports.
pub(crate) proof fn lemma_find_first_occ(h: Seq<char>, n: Seq<char>, r: Option<usize>)
    requires
        match r {
            Some(m) => match_at(h, n, m as int) && (forall|k: int|
                0 <= k < m ==> !match_at(h, n, k)),
            None => !contains_seq(h, n),
        },
    ensures
        match r {
            Some(m) => first_occ(h, n, 0) == m,
            None => first_occ(h, n, 0) == -1,
        },
{
    match r {
        Some(m) => {
            lemma_first_occ_from(h, n, 0, m as int);
        },
        None => {
            assert(forall|k: int| 0 <= k ==> !match_at(h, n, k));
            lemma_first_occ_none(h, n, 0);
        },
    }
}

/// Parse one token into a predicate, exactly as `parse_token` describes.
fn parse_token_exec(tok: &str) -> (r: Option<Filter>)
    ensures
        match r {
            Some(f) => parse_token(tok@) == Some(f@),
            None => parse_token(tok@) is None,
        },
{
    proof {
        reveal_strlit(">=");
        reveal_strlit("<=");
        reveal_strlit("!=");
        reveal_strlit("contains");
        reveal_strlit("=");
        reveal_strlit(">");
        reveal_strlit("<");
    }
    let r_gte = find_sub(tok, ">=");
    proof {
        lemma_find_first_occ(tok@, ">="@, r_gte);
    }
    if let Some(i) = r_gte {
        return Some(split_token_exec(tok, i, 2, Operator::Gte));
    }
    let r_lte = find_sub(tok, "<=");
    proof {
        lemma_find_first_occ(tok@, "<="@, r_lte);
    }
    if let Some(i) = r_lte {
        return Some(split_token_exec(tok, i, 2, Operator::Lte));
    }
    let r_neq = find_sub(tok, "!=");
    proof {
        lemma_find_first_occ(tok@, "!="@, r_neq);
    }
    if let Some(i) = r_neq {
        return Some(split_token_exec(tok, i, 2, Operator::Neq));
    }
    let r_con = find_sub(tok, "contains");
    proof {
        lemma_find_first_occ(tok@, "contains"@, r_con);
    }
    if let Some(i) = r_con {
        return Some(split_token_exec(tok, i, 8, Operator::Contains));
    }
    let r_eq = find_sub(tok, "=");
    proof {
        lemma_find_first_occ(tok@, "="@, r_eq);
    }
    if let Some(i) = r_eq {
        return Some(split_token_exec(tok, i, 1, Operator::Eq));
    }
    let r_gt = find_sub(tok, ">");
    proof {
        lemma_find_first_occ(tok@, ">"@, r_gt);
    }
    if let Some(i) = r_gt {
        return Some(split_token_exec(tok, i, 1, Operator::Gt));
    }
    let r_lt = find_sub(tok, "<");
    proof {
        lemma_find_first_occ(tok@, "<"@, r_lt);
    }
    if let Some(i) = r_lt {
        return Some(split_token_exec(tok, i, 1, Operator::Lt));
    }
    None
}

/// Split a token around the operator found at `[i, i + oplen)`.
fn split_token_exec(tok: &str, i: usize, oplen: usize, op: Operator) -> (f: Filter)
    requires
        i + oplen <= tok@.len(),
    ensures
        f@ == split_token(tok@, i as int, oplen as int, op),
{
    let len = tok.unicode_len();
    let field = tok.substring_char(0, i).to_owned();
    let value = tok.substring_char(i + oplen, len).to_owned();
    proof {
        assert(field@ =~= tok@.take(i as int));
        assert(value@ =~= tok@.skip(i as int + oplen as int));
    }
    Filter { field, operator: op, value }
}

fn is_space_exec(c: char) -> (r: bool)
    ensures
        r == is_space(c),
{
    c == ' ' || c == '\t' || c == '\n' || c == '\r'
}

impl Filter {
    /// Parse a filter expression: whitespace-separated tokens, each either
    /// a `field operator value` predicate or silently skipped. Parsing
    /// never fails.
    pub fn parse(input: &str) -> (r: Result<Vec<Filter>, TaskVimError>)
        ensures
            r matches Ok(v) && filters_view(v@) == spec_parse(input@),
    {
        let len = input.unicode_len();
        let mut out: Vec<Filter> = Vec::new();
        let mut i: usize = 0;
        while i < len
            invariant
                i <= len,
                len == input@.len(),
                spec_parse(input@) =~= filters_view(out@) + parse_tokens(tokens_from(input@, i as int)),
            decreases len - i,
        {
            // skip whitespace
            if is_space_exec(input.get_char(i)) {
                proof {
                    assert(skip_spaces(input@, i as int) == skip_spaces(input@, i as int + 1));
                    assert(tokens_from(input@, i as int) =~= tokens_from(input@, i as int + 1));
                }
                i += 1;
            } else {
                // scan the token
                let start = i;
                let mut e = i;
                while e < len && !is_space_exec(input.get_char(e))
                    invariant
                        start <= e <= len,
                        len == input@.len(),
                        token_end(input@, start as int) == token_end(input@, e as int),
                        !is_space(input@[start as int]),
                    decreases len - e,
                {
                    proof {
                        assert(token_end(input@, e as int) == token_end(input@, e as int + 1));
                    }
                    e += 1;
                }
                proof {
                    assert(token_end(input@, e as int) == e as int);
                    assert(skip_spaces(input@, start as int) == start as int);
                    assert(tokens_from(input@, start as int) =~= seq![
                        input@.subrange(start as int, e as int),
                    ] + tokens_from(input@, e as int));
                }
                let tok = input.substring_char(start, e);
                let ghost toks_before = tokens_from(input@, start as int);
                match parse_token_exec(tok) {
                    Some(f) => {
                        out.push(f);
                    },
                    None => {
                    },
                }
                proof {
                    assert(toks_before[0] == tok@);
                    assert(toks_before.drop_first() =~= tokens_from(input@, e as int));
                }
                i = e;
            }
        }
        proof {
            assert(tokens_from(input@, len as int) =~= Seq::<Seq<char>>::empty());
        }
        Ok(out)
    }

    /// Compile one predicate into a SQL comparison and its bound value.
    /// A usable field yields `"<column> <op> ?"`; a `contains` predicate
    /// wraps the bound value in `%` wildcards; the `tag` field and unknown
    /// fields yield a validation error.
    pub fn to_sql_condition(&self) -> (r: Result<(String, String), TaskVimError>)
        ensures
            match r {
                Ok(cv) => {
                    &&& column_of(self.field@) is Some
                    &&& cv.0@ == column_of(self.field@)->Some_0 + " "@ + self.operator.sql_view()
                        + " ?"@
                    &&& cv.1@ == (if self.operator == Operator::Contains {
                        "%"@ + self.value@ + "%"@
                    } else {
                        self.value@
                    })
                },
                Err(e) => {
                    &&& column_of(self.field@) is None
                    &&& e matches TaskVimError::Validation(m) && m@ == (
                    if self.field@ == "tag"@ {
                        "Tag filtering not yet implemented in SQL gen"@
                    } else {
                        "Unknown field: "@ + self.field@
                    })
                },
            },
    {
        let col: &'static str = if crate::text::str_eq(self.field.as_str(), "status") {
            "status"
        } else if crate::text::str_eq(self.field.as_str(), "priority") {
            "priority"
        } else if crate::text::str_eq(self.field.as_str(), "project") {
            "project"
        } else if crate::text::str_eq(self.field.as_str(), "due") {
            "due_date"
        } else if crate::text::str_eq(self.field.as_str(), "created") {
            "created_at"
        } else if crate::text::str_eq(self.field.as_str(), "tag") {
            return Err(
                TaskVimError::Validation(
                    String::from_str("Tag filtering not yet implemented in SQL gen"),
                ),
            );
        } else {
            let msg = String::from_str("Unknown field: ").concat(self.field.as_str());
            return Err(TaskVimError::Validation(msg));
        };
        let cond = String::from_str(col).concat(" ").concat(self.operator.to_sql()).concat(" ?");
        let val = if matches!(self.operator, Operator::Contains) {
            String::from_str("%").concat(self.value.as_str()).concat("%")
        } else {
            self.value.clone()
        };
        Ok((cond, val))
    }
}

} // verus!
