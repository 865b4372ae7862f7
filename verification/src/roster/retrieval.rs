//! Bounded query construction.
//!
//! A query is a disjunction of quoted literals. It has no roster, provider,
//! persistence or fallback effects.
use crate::chars::{has_prefix, part, starts_with};
use crate::score::Score;
use crate::text::{chars_of, contains_text, copy_text, same_text, string_of, texts};
use vstd::prelude::*;

verus! {

pub const QUERY_COMPILER_VERSION: &'static str = "quill-literal-or-v1";

pub const MAX_QUERY_TERMS: usize = 128;

pub const MAX_QUERY_SCALARS: usize = 4096;

/// Maximum characters of a source, before analysis.
pub const MAX_SOURCE_SCALARS: usize = 4096;

/// Local context that was already selected. Callers apply the disclosure and
/// tool policy first.
#[derive(Clone, Copy)]
pub struct QueryInput<'a> {
    pub latest_request: &'a str,
    pub active_task: &'a str,
    pub recent_errors: &'a str,
}

/// Counts only. Sources are in the order latest request, active task, recent
/// errors.
#[derive(Clone, Copy, Debug, PartialEq, Eq)]
pub struct QueryDiagnostics {
    pub input_truncated: [bool; 3],
    pub analyzed_tokens: usize,
    pub duplicate_terms: usize,
    pub omitted_terms: usize,
    pub term_limit_reached: bool,
    pub scalar_limit_reached: bool,
    pub emitted_terms: usize,
    pub query_scalars: usize,
}

/// Why a query could not be compiled.
#[derive(Clone, Copy, Debug, PartialEq, Eq, Structural)]
pub enum QueryCompileError {
    Cancelled,
    SchemaMismatch,
    UnrepresentableTerms,
    ParserRejected { diagnostic_count: usize, was_truncated: bool },
    MeaningChanged,
}

impl QueryCompileError {
    pub open spec fn text(self) -> Seq<char> {
        match self {
            QueryCompileError::Cancelled => "query compilation cancelled"@,
            QueryCompileError::SchemaMismatch => "query schema does not match the pinned contract"@,
            QueryCompileError::UnrepresentableTerms =>
                "no analyzed query term fits the bounded query"@,
            QueryCompileError::ParserRejected { .. } =>
                "query parser reported truncation or recovery"@,
            QueryCompileError::MeaningChanged =>
                "query parser did not preserve literal disjunction semantics"@,
        }
    }

    pub fn as_str(self) -> (text: &'static str)
        ensures
            text@ == self.text(),
    {
        match self {
            QueryCompileError::Cancelled => "query compilation cancelled",
            QueryCompileError::SchemaMismatch => "query schema does not match the pinned contract",
            QueryCompileError::UnrepresentableTerms =>
                "no analyzed query term fits the bounded query",
            QueryCompileError::ParserRejected { .. } =>
                "query parser reported truncation or recovery",
            QueryCompileError::MeaningChanged =>
                "query parser did not preserve literal disjunction semantics",
        }
    }
}

/// Is a character a letter or a number by Unicode?
pub uninterp spec fn alphanumeric(c: char) -> bool;

/// `char::is_alphanumeric` tells whether a character has the Unicode property
/// Alphabetic or a numeric category. The property tables are not restated here;
/// the answer depends on the character alone.
#[verifier::external_body]
fn is_alphanumeric(c: char) -> (r: bool)
    ensures
        r == alphanumeric(c),
{
    c.is_alphanumeric()
}

/// A text without the letters and numbers at its end.
pub open spec fn without_last_word(text: Seq<char>) -> Seq<char>
    decreases text.len(),
{
    if text.len() > 0 && alphanumeric(text.last()) {
        without_last_word(text.drop_last())
    } else {
        text
    }
}

/// A source cut to its limit. A cut inside a word drops the word.
pub open spec fn bounded(source: Seq<char>) -> Seq<char> {
    if source.len() <= MAX_SOURCE_SCALARS {
        source
    } else if alphanumeric(source[MAX_SOURCE_SCALARS as int]) {
        without_last_word(source.take(MAX_SOURCE_SCALARS as int))
    } else {
        source.take(MAX_SOURCE_SCALARS as int)
    }
}

/// Cut a source to its limit, and say whether it was cut.
pub fn bounded_source(source: &str) -> (r: (String, bool))
    ensures
        r.0@ == bounded(source@),
        r.1 == (source@.len() > MAX_SOURCE_SCALARS),
{
    let chars: Vec<char> = chars_of(source);
    if chars.len() <= MAX_SOURCE_SCALARS {
        return (copy_text(source), false);
    }
    let mut end: usize = MAX_SOURCE_SCALARS;
    if is_alphanumeric(chars[MAX_SOURCE_SCALARS]) {
        while end > 0 && is_alphanumeric(chars[end - 1])
            invariant
                end <= MAX_SOURCE_SCALARS < chars@.len(),
                without_last_word(chars@.take(end as int)) == without_last_word(
                    chars@.take(MAX_SOURCE_SCALARS as int),
                ),
            ensures
                end == 0 || !alphanumeric(chars@[end - 1]),
            decreases end,
        {
            assert(chars@.take(end as int).drop_last() =~= chars@.take(end - 1));
            end -= 1;
        }
    }
    (string_of(part(chars.as_slice(), 0, end)), true)
}

/// A character with the escape that it needs inside a literal.
pub open spec fn escaped_char(c: char) -> Seq<char> {
    if c == '\\' || c == '"' {
        seq!['\\', c]
    } else {
        seq![c]
    }
}

/// A term with its quotes and backslashes escaped.
pub open spec fn escaped(term: Seq<char>) -> Seq<char>
    decreases term.len(),
{
    if term.len() == 0 {
        Seq::empty()
    } else {
        escaped_char(term[0]) + escaped(term.skip(1))
    }
}

/// A term as a quoted literal.
pub open spec fn quoted(term: Seq<char>) -> Seq<char> {
    seq!['"'] + escaped(term) + seq!['"']
}

pub fn quote_literal(term: &str) -> (literal: String)
    ensures
        literal@ == quoted(term@),
{
    let chars: Vec<char> = chars_of(term);
    let mut out: String = String::new();
    out.push('"');
    let mut i: usize = 0;
    assert(chars@.skip(0) =~= chars@);
    assert(out@ =~= seq!['"']);
    while i < chars.len()
        invariant
            i <= chars@.len(),
            out@ + escaped(chars@.skip(i as int)) == seq!['"'] + escaped(chars@),
        decreases chars@.len() - i,
    {
        let c: char = chars[i];
        let ghost before = out@;
        assert(chars@.skip(i as int)[0] == c);
        assert(chars@.skip(i as int).skip(1) =~= chars@.skip(i + 1));
        if c == '\\' || c == '"' {
            out.push('\\');
        }
        out.push(c);
        assert(out@ =~= before + escaped_char(c));
        assert(before + (escaped_char(c) + escaped(chars@.skip(i + 1))) =~= (before + escaped_char(
            c,
        )) + escaped(chars@.skip(i + 1)));
        i += 1;
    }
    assert(out@ + escaped(chars@.skip(i as int)) =~= out@);
    out.push('"');
    assert(out@ =~= quoted(chars@));
    out
}

/// The disjunction of quoted literals.
pub open spec fn disjunction(parts: Seq<Seq<char>>) -> Seq<char>
    decreases parts.len(),
{
    if parts.len() == 0 {
        Seq::empty()
    } else if parts.len() == 1 {
        quoted(parts[0])
    } else {
        quoted(parts[0]) + " OR "@ + disjunction(parts.skip(1))
    }
}

/// Behind the opening quote of a literal: its term, and what follows the
/// closing quote.
pub open spec fn read_body(text: Seq<char>) -> Option<(Seq<char>, Seq<char>)>
    decreases text.len(),
{
    if text.len() == 0 {
        None
    } else if text[0] == '"' {
        Some((Seq::empty(), text.skip(1)))
    } else if text[0] == '\\' {
        if text.len() > 1 && (text[1] == '\\' || text[1] == '"') {
            match read_body(text.skip(2)) {
                Some((term, rest)) => Some((seq![text[1]] + term, rest)),
                None => None,
            }
        } else {
            None
        }
    } else {
        match read_body(text.skip(1)) {
            Some((term, rest)) => Some((seq![text[0]] + term, rest)),
            None => None,
        }
    }
}

/// What follows the closing quote.
pub open spec fn rest_of(text: Seq<char>) -> Option<Seq<char>> {
    match read_body(text) {
        Some((_, rest)) => Some(rest),
        None => None,
    }
}

/// The terms of a text that is a disjunction of quoted literals and nothing
/// else.
pub open spec fn literals(text: Seq<char>) -> Option<Seq<Seq<char>>>
    decreases text.len(),
    via literals_terminate
{
    if text.len() == 0 || text[0] != '"' {
        None
    } else {
        match read_body(text.skip(1)) {
            None => None,
            Some((term, rest)) => if rest.len() == 0 {
                Some(seq![term])
            } else if has_prefix(rest, " OR "@) {
                match literals(rest.skip(4)) {
                    Some(more) => Some(seq![term] + more),
                    None => None,
                }
            } else {
                None
            },
        }
    }
}

#[via_fn]
proof fn literals_terminate(text: Seq<char>) {
    if text.len() > 0 {
        rest_is_shorter(text.skip(1));
        reveal_strlit(" OR ");
    }
}

proof fn rest_is_shorter(text: Seq<char>)
    ensures
        match read_body(text) {
            Some((_, rest)) => rest.len() < text.len(),
            None => true,
        },
    decreases text.len(),
{
    if text.len() > 0 && text[0] != '"' {
        if text[0] == '\\' {
            if text.len() > 1 {
                rest_is_shorter(text.skip(2));
            }
        } else {
            rest_is_shorter(text.skip(1));
        }
    }
}

/// Is a text a disjunction of quoted literals and nothing else?
pub fn is_literal_disjunction(rendered: &str) -> (r: bool)
    ensures
        r == (literals(rendered@) is Some),
{
    let chars: Vec<char> = chars_of(rendered);
    let ghost all = chars@;
    let total: usize = chars.len();
    let mut at: usize = 0;
    proof {
        reveal_strlit(" OR ");
        assert(all.skip(0) =~= all);
    }
    loop
        invariant
            total == chars@.len(),
            all == chars@,
            all == rendered@,
            at <= total,
            " OR "@.len() == 4,
            literals(all) is Some <==> literals(all.skip(at as int)) is Some,
        decreases total - at,
    {
        let ghost text = all.skip(at as int);
        if at == total || chars[at] != '"' {
            assert(literals(text) is None);
            return false;
        }
        assert(text[0] == '"');
        assert(text.skip(1) =~= all.skip(at + 1));
        let ghost body = all.skip(at + 1);
        let mut i: usize = at + 1;
        loop
            invariant_except_break
                rest_of(body) == rest_of(all.skip(i as int)),
            invariant
                total == chars@.len(),
                all == chars@,
                all == rendered@,
                at < i <= total,
                literals(all) is Some <==> literals(text) is Some,
                text.len() > 0,
                text[0] == '"',
                text.skip(1) == body,
            ensures
                rest_of(body) == Some(all.skip(i as int)),
            decreases total - i,
        {
            let ghost here = all.skip(i as int);
            if i == total {
                assert(rest_of(here) is None);
                assert(literals(text) is None);
                return false;
            }
            let c: char = chars[i];
            assert(here[0] == c);
            if c == '"' {
                assert(here.skip(1) =~= all.skip(i + 1));
                i += 1;
                break;
            }
            if c == '\\' {
                if i + 1 == total || (chars[i + 1] != '\\' && chars[i + 1] != '"') {
                    assert(here.len() == 1 || here[1] == all[i + 1]);
                    assert(rest_of(here) is None);
                    assert(literals(text) is None);
                    return false;
                }
                assert(here[1] == all[i + 1]);
                assert(here.skip(2) =~= all.skip(i + 2));
                i += 2;
            } else {
                assert(here.skip(1) =~= all.skip(i + 1));
                i += 1;
            }
        }
        let rest: &[char] = part(chars.as_slice(), i, total);
        assert(rest@ =~= all.skip(i as int));
        if i == total {
            return true;
        }
        if !starts_with(rest, " OR ") {
            return false;
        }
        assert(rest@.skip(4) =~= all.skip(i + 4));
        at = i + 4;
    }
}

/// A literal reads back as the term that was quoted.
proof fn quoted_reads_back(term: Seq<char>, rest: Seq<char>)
    ensures
        read_body(escaped(term) + seq!['"'] + rest) == Some((term, rest)),
    decreases term.len(),
{
    let text = escaped(term) + seq!['"'] + rest;
    if term.len() == 0 {
        assert(text[0] == '"');
        assert(text.skip(1) =~= rest);
        assert(term =~= Seq::empty());
    } else {
        let c = term[0];
        let more = escaped(term.skip(1)) + seq!['"'] + rest;
        quoted_reads_back(term.skip(1), rest);
        assert(text =~= escaped_char(c) + more);
        assert(seq![c] + term.skip(1) =~= term);
        if c == '\\' || c == '"' {
            assert(text[0] == '\\' && text[1] == c);
            assert(text.skip(2) =~= more);
        } else {
            assert(text[0] == c);
            assert(text.skip(1) =~= more);
        }
    }
}

/// What was read is the literal of the term that came out.
proof fn reading_is_quoting(text: Seq<char>)
    ensures
        match read_body(text) {
            Some((term, rest)) => text == escaped(term) + seq!['"'] + rest,
            None => true,
        },
    decreases text.len(),
{
    if text.len() > 0 {
        if text[0] == '"' {
            assert(text =~= escaped(Seq::empty()) + seq!['"'] + text.skip(1));
        } else if text[0] == '\\' {
            if text.len() > 1 && (text[1] == '\\' || text[1] == '"') {
                reading_is_quoting(text.skip(2));
                match read_body(text.skip(2)) {
                    Some((term, rest)) => {
                        let whole = seq![text[1]] + term;
                        assert(whole.skip(1) =~= term);
                        assert(text =~= seq!['\\', text[1]] + text.skip(2));
                        assert(text =~= escaped(whole) + seq!['"'] + rest);
                    },
                    None => {},
                }
            }
        } else {
            reading_is_quoting(text.skip(1));
            match read_body(text.skip(1)) {
                Some((term, rest)) => {
                    let whole = seq![text[0]] + term;
                    assert(whole.skip(1) =~= term);
                    assert(text =~= seq![text[0]] + text.skip(1));
                    assert(text =~= escaped(whole) + seq!['"'] + rest);
                },
                None => {},
            }
        }
    }
}

/// The literals of a disjunction are the terms that it was made of, and only a
/// disjunction has literals: quoting loses nothing, and no other text passes
/// for a query.
pub proof fn literals_invert_disjunction(parts: Seq<Seq<char>>, text: Seq<char>)
    ensures
        parts.len() > 0 ==> literals(disjunction(parts)) == Some(parts),
        literals(text) is Some ==> disjunction(literals(text)->0) == text,
{
    if parts.len() > 0 {
        disjunction_reads_back(parts);
    }
    if literals(text) is Some {
        reading_is_disjunction(text);
    }
}

proof fn disjunction_reads_back(parts: Seq<Seq<char>>)
    requires
        parts.len() > 0,
    ensures
        literals(disjunction(parts)) == Some(parts),
    decreases parts.len(),
{
    let text = disjunction(parts);
    let first = parts[0];
    reveal_strlit(" OR ");
    if parts.len() == 1 {
        quoted_reads_back(first, Seq::empty());
        assert(text.skip(1) =~= escaped(first) + seq!['"'] + Seq::<char>::empty());
        assert(parts =~= seq![first]);
    } else {
        let more = disjunction(parts.skip(1));
        let rest = " OR "@ + more;
        disjunction_reads_back(parts.skip(1));
        quoted_reads_back(first, rest);
        assert(text.skip(1) =~= escaped(first) + seq!['"'] + rest);
        assert(rest.take(4) =~= " OR "@);
        assert(rest.skip(4) =~= more);
        assert(has_prefix(rest, " OR "@));
        assert(seq![first] + parts.skip(1) =~= parts);
    }
}

proof fn reading_is_disjunction(text: Seq<char>)
    requires
        literals(text) is Some,
    ensures
        literals(text)->0.len() > 0,
        disjunction(literals(text)->0) == text,
    decreases text.len(),
{
    reveal_strlit(" OR ");
    rest_is_shorter(text.skip(1));
    reading_is_quoting(text.skip(1));
    match read_body(text.skip(1)) {
        Some((term, rest)) => {
            assert(text =~= seq!['"'] + text.skip(1));
            if rest.len() == 0 {
                assert(text =~= quoted(term));
            } else {
                reading_is_disjunction(rest.skip(4));
                let more = literals(rest.skip(4))->0;
                let parts = seq![term] + more;
                assert(parts.skip(1) =~= more);
                assert(rest =~= rest.take(4) + rest.skip(4));
                assert(text =~= quoted(term) + " OR "@ + rest.skip(4));
            }
        },
        None => {},
    }
}

pub(crate) proof fn disjunction_grows(parts: Seq<Seq<char>>, term: Seq<char>)
    ensures
        disjunction(parts.push(term)) == (if parts.len() == 0 {
            quoted(term)
        } else {
            disjunction(parts) + " OR "@ + quoted(term)
        }),
        parts.len() > 0 ==> disjunction(parts).len() > 0,
    decreases parts.len(),
{
    if parts.len() > 0 {
        let more = parts.push(term);
        assert(more.skip(1) =~= parts.skip(1).push(term));
        disjunction_grows(parts.skip(1), term);
        if parts.len() == 1 {
            assert(parts.skip(1) =~= Seq::empty());
            assert(disjunction(more) =~= disjunction(parts) + " OR "@ + quoted(term));
        } else {
            assert(disjunction(more) =~= disjunction(parts) + " OR "@ + quoted(term));
        }
    }
}

/// A field that terms are searched in.
#[derive(Clone, Copy, Debug, PartialEq, Eq, Structural)]
pub enum SearchField {
    Content,
    Title,
}

/// A field of a parsed term, with the weight that the parser gave it.
#[derive(Clone, Copy, Debug, PartialEq, Eq, Structural)]
pub struct QueryField {
    pub field_id: u64,
    pub boost: Score,
}

/// Bits of the weight one.
pub const CONTENT_BOOST_BITS: u64 = 0x3FF0_0000_0000_0000;

/// Bits of the weight two.
pub const TITLE_BOOST_BITS: u64 = 0x4000_0000_0000_0000;

#[derive(Clone, Copy, Debug, PartialEq, Eq, Structural)]
pub enum Occur {
    Should,
    Must,
    MustNot,
}

#[derive(Clone, Copy, Debug, PartialEq, Eq, Structural)]
pub enum BooleanOperator {
    And,
    Or,
}

/// A parsed query. What is neither a term nor a boolean combination is kept
/// without its parts.
#[derive(Debug)]
pub enum QueryNode {
    Term { fields: Vec<QueryField>, text: String },
    Boolean { clauses: Vec<QueryClause>, operator: Option<BooleanOperator> },
    Other,
}

#[derive(Debug)]
pub struct QueryClause {
    pub occur: Occur,
    pub query: QueryNode,
}

impl QueryField {
    /// The content field has weight one, and the title field weight two.
    pub open spec fn meaning(self) -> Option<SearchField> {
        if self.field_id == 1 && self.boost.same_value_spec(Score { bits: CONTENT_BOOST_BITS }) {
            Some(SearchField::Content)
        } else if self.field_id == 2 && self.boost.same_value_spec(
            Score { bits: TITLE_BOOST_BITS },
        ) {
            Some(SearchField::Title)
        } else {
            None
        }
    }

    fn search_field(self) -> (r: Option<SearchField>)
        ensures
            r == self.meaning(),
    {
        if self.field_id == 1 && self.boost.same_value(Score { bits: CONTENT_BOOST_BITS }) {
            Some(SearchField::Content)
        } else if self.field_id == 2 && self.boost.same_value(Score { bits: TITLE_BOOST_BITS }) {
            Some(SearchField::Title)
        } else {
            None
        }
    }
}

/// The searched fields of a term, in order.
pub open spec fn term_leaves(fields: Seq<QueryField>, text: Seq<char>) -> Seq<
    (Seq<char>, SearchField),
> {
    fields.map_values(|f: QueryField| (text, f.meaning()->0))
}

impl QueryNode {
    /// Only terms with known fields, joined by optional disjunction.
    pub open spec fn is_disjunctive(self) -> bool
        decreases self,
    {
        match self {
            QueryNode::Term { fields, .. } => fields@.len() > 0 && forall|i: int|
                0 <= i < fields@.len() ==> (#[trigger] fields@[i]).meaning() is Some,
            QueryNode::Boolean { clauses, operator } => operator != Some(BooleanOperator::And)
                && forall|i: int|
                0 <= i < clauses@.len() ==> (#[trigger] clauses@[i]).occur == Occur::Should
                    && clauses@[i].query.is_disjunctive(),
            QueryNode::Other => false,
        }
    }

    pub open spec fn clause_count(self) -> nat {
        match self {
            QueryNode::Boolean { clauses, .. } => clauses@.len(),
            _ => 0,
        }
    }

    /// The terms of a query with the field that each is searched in.
    pub open spec fn leaves(self) -> Seq<(Seq<char>, SearchField)>
        decreases self, self.clause_count() + 1,
    {
        match self {
            QueryNode::Term { fields, text } => term_leaves(fields@, text@),
            QueryNode::Boolean { .. } => self.leaves_below(self.clause_count()),
            QueryNode::Other => Seq::empty(),
        }
    }

    /// The terms of the first `n` clauses.
    pub open spec fn leaves_below(self, n: nat) -> Seq<(Seq<char>, SearchField)>
        decreases self, n,
    {
        match self {
            QueryNode::Boolean { clauses, .. } => if 0 < n <= clauses@.len() {
                self.leaves_below((n - 1) as nat) + clauses@[n - 1].query.leaves()
            } else {
                Seq::empty()
            },
            _ => Seq::empty(),
        }
    }
}

/// One term and the field that it is searched in.
#[derive(Debug)]
pub struct Leaf {
    pub text: String,
    pub field: SearchField,
}

pub open spec fn leaf_views(list: Seq<Leaf>) -> Seq<(Seq<char>, SearchField)> {
    list.map_values(|l: Leaf| (l.text@, l.field))
}

/// Collect the leaves of a query; say whether it is disjunctive.
fn collect_leaves(query: &QueryNode, list: &mut Vec<Leaf>) -> (ok: bool)
    ensures
        ok == query.is_disjunctive(),
        ok ==> leaf_views(final(list)@) == leaf_views(old(list)@) + query.leaves(),
    decreases query,
{
    let ghost start = leaf_views(list@);
    match query {
        QueryNode::Term { fields, text } => {
            if fields.len() == 0 {
                return false;
            }
            let ghost expected = term_leaves(fields@, text@);
            let mut i: usize = 0;
            assert(start + expected.take(0) =~= start);
            while i < fields.len()
                invariant
                    i <= fields@.len(),
                    *query == (QueryNode::Term { fields: *fields, text: *text }),
                    expected == term_leaves(fields@, text@),
                    forall|j: int| 0 <= j < i ==> (#[trigger] fields@[j]).meaning() is Some,
                    leaf_views(list@) == start + expected.take(i as int),
                decreases fields@.len() - i,
            {
                match fields[i].search_field() {
                    Some(field) => {
                        let ghost before = leaf_views(list@);
                        list.push(Leaf { text: copy_text(text.as_str()), field });
                        assert(leaf_views(list@) =~= before.push((text@, field)));
                        assert(expected.take(i + 1) =~= expected.take(i as int).push(
                            (text@, field),
                        ));
                        assert(leaf_views(list@) =~= start + expected.take(i + 1));
                    },
                    None => {
                        return false;
                    },
                }
                i += 1;
            }
            assert(expected.take(i as int) =~= expected);
            true
        },
        QueryNode::Boolean { clauses, operator } => {
            match operator {
                Some(BooleanOperator::And) => {
                    return false;
                },
                _ => {},
            }
            let mut i: usize = 0;
            assert(start + query.leaves_below(0) =~= start);
            while i < clauses.len()
                invariant
                    i <= clauses@.len(),
                    *query == (QueryNode::Boolean { clauses: *clauses, operator: *operator }),
                    *operator != Some(BooleanOperator::And),
                    forall|j: int|
                        0 <= j < i ==> (#[trigger] clauses@[j]).occur == Occur::Should
                            && clauses@[j].query.is_disjunctive(),
                    leaf_views(list@) == start + query.leaves_below(i as nat),
                decreases clauses@.len() - i,
            {
                assert(decreases_to!(*query => clauses@[i as int].query));
                if clauses[i].occur != Occur::Should {
                    return false;
                }
                if !collect_leaves(&clauses[i].query, list) {
                    return false;
                }
                assert(query.leaves_below((i + 1) as nat) == query.leaves_below(i as nat)
                    + clauses@[i as int].query.leaves());
                assert(leaf_views(list@) =~= start + query.leaves_below((i + 1) as nat));
                i += 1;
            }
            true
        },
        QueryNode::Other => false,
    }
}

/// Each expected term is searched once in each field, and nothing else is
/// searched.
pub open spec fn preserves(query: QueryNode, expected: Seq<Seq<char>>) -> bool {
    &&& query.is_disjunctive()
    &&& query.leaves().no_duplicates()
    &&& forall|i: int|
        0 <= i < query.leaves().len() ==> expected.contains((#[trigger] query.leaves()[i]).0)
    &&& forall|i: int|
        0 <= i < expected.len() ==> query.leaves().contains(
            (#[trigger] expected[i], SearchField::Content),
        ) && query.leaves().contains((expected[i], SearchField::Title))
}

fn has_leaf(list: &Vec<Leaf>, upto: usize, text: &str, field: SearchField) -> (r: bool)
    requires
        upto <= list@.len(),
    ensures
        r == leaf_views(list@).take(upto as int).contains((text@, field)),
{
    let ghost all = leaf_views(list@);
    let mut i: usize = 0;
    while i < upto
        invariant
            i <= upto <= list@.len(),
            all == leaf_views(list@),
            forall|j: int| 0 <= j < i ==> all[j] != (text@, field),
        decreases upto - i,
    {
        if list[i].field == field && same_text(list[i].text.as_str(), text) {
            assert(all.take(upto as int)[i as int] == (text@, field));
            return true;
        }
        i += 1;
    }
    false
}

/// Does a parsed query mean the disjunction of the expected terms?
pub fn preserves_terms(query: &QueryNode, expected: &Vec<String>) -> (r: bool)
    ensures
        r == preserves(*query, texts(expected@)),
{
    let mut list: Vec<Leaf> = Vec::new();
    if !collect_leaves(query, &mut list) {
        return false;
    }
    let ghost all = query.leaves();
    let ghost wanted = texts(expected@);
    assert(leaf_views(list@) =~= all);
    let mut i: usize = 0;
    while i < list.len()
        invariant
            i <= list@.len(),
            query.is_disjunctive(),
            all == query.leaves(),
            all == leaf_views(list@),
            wanted == texts(expected@),
            all.take(i as int).no_duplicates(),
            forall|j: int| 0 <= j < i ==> wanted.contains((#[trigger] all[j]).0),
        decreases list@.len() - i,
    {
        assert(all[i as int] == (list@[i as int].text@, list@[i as int].field));
        if !contains_text(expected, list[i].text.as_str()) {
            return false;
        }
        if has_leaf(&list, i, list[i].text.as_str(), list[i].field) {
            proof {
                let j = choose|j: int|
                    0 <= j < i && all.take(i as int)[j] == all[i as int];
                assert(all[j] == all[i as int]);
                assert(!all.no_duplicates());
            }
            return false;
        }
        proof {
            let more = all.take(i + 1);
            assert(more.no_duplicates()) by {
                assert forall|a: int, b: int|
                    0 <= a < more.len() && 0 <= b < more.len() && a != b implies more[a] != more[b] by {
                    if a < i {
                        assert(all.take(i as int)[a] == all[a]);
                    }
                    if b < i {
                        assert(all.take(i as int)[b] == all[b]);
                    }
                }
            }
        }
        i += 1;
    }
    assert(all.take(i as int) =~= all);
    let total: usize = list.len();
    let mut k: usize = 0;
    while k < expected.len()
        invariant
            k <= expected@.len(),
            total == list@.len(),
            all == leaf_views(list@),
            all == query.leaves(),
            all.take(total as int) == all,
            wanted == texts(expected@),
            query.is_disjunctive(),
            all.no_duplicates(),
            forall|j: int| 0 <= j < all.len() ==> wanted.contains((#[trigger] all[j]).0),
            forall|j: int|
                0 <= j < k ==> all.contains((#[trigger] wanted[j], SearchField::Content))
                    && all.contains((wanted[j], SearchField::Title)),
        decreases expected@.len() - k,
    {
        assert(wanted[k as int] == expected@[k as int]@);
        if !has_leaf(&list, total, expected[k].as_str(), SearchField::Content) || !has_leaf(
            &list,
            total,
            expected[k].as_str(),
            SearchField::Title,
        ) {
            return false;
        }
        k += 1;
    }
    true
}

/// What the query parser made of a rendered query.
#[derive(Debug)]
pub enum ParserReading {
    SchemaMismatch,
    Parsed { query: QueryNode, diagnostic_count: usize, was_truncated: bool },
}

/// Why a rendered query is refused.
pub open spec fn query_refusal(
    rendered: Seq<char>,
    reading: ParserReading,
    expected: Seq<Seq<char>>,
) -> Option<QueryCompileError> {
    match reading {
        ParserReading::SchemaMismatch => Some(QueryCompileError::SchemaMismatch),
        ParserReading::Parsed { query, diagnostic_count, was_truncated } => if was_truncated
            || diagnostic_count > 0 {
            Some(QueryCompileError::ParserRejected { diagnostic_count, was_truncated })
        } else if literals(rendered) is None || !preserves(query, expected) {
            Some(QueryCompileError::MeaningChanged)
        } else {
            None
        },
    }
}

/// Accept a rendered query whose parsed form keeps its meaning.
pub fn validate_query(rendered: &str, reading: &ParserReading, expected: &Vec<String>) -> (r: Result<
    (),
    QueryCompileError,
>)
    ensures
        match r {
            Ok(_) => query_refusal(rendered@, *reading, texts(expected@)) is None,
            Err(error) => query_refusal(rendered@, *reading, texts(expected@)) == Some(error),
        },
{
    match reading {
        ParserReading::SchemaMismatch => Err(QueryCompileError::SchemaMismatch),
        ParserReading::Parsed { query, diagnostic_count, was_truncated } => {
            if *was_truncated || *diagnostic_count > 0 {
                return Err(
                    QueryCompileError::ParserRejected {
                        diagnostic_count: *diagnostic_count,
                        was_truncated: *was_truncated,
                    },
                );
            }
            if !is_literal_disjunction(rendered) || !preserves_terms(query, expected) {
                return Err(QueryCompileError::MeaningChanged);
            }
            Ok(())
        },
    }
}

/// A term of a source: as the index knows it, and as the source spells it.
#[derive(Clone, Debug)]
pub struct Term {
    pub normalized: String,
    pub source: String,
}

/// A term as characters.
pub struct TermView {
    pub normalized: Seq<char>,
    pub source: Seq<char>,
}

pub open spec fn term_views(terms: Seq<Term>) -> Seq<TermView> {
    terms.map_values(|t: Term| TermView { normalized: t.normalized@, source: t.source@ })
}

/// The analyzed terms of the three sources.
#[derive(Clone, Debug)]
pub struct AnalyzedSources {
    pub latest_request: Vec<Term>,
    pub active_task: Vec<Term>,
    pub recent_errors: Vec<Term>,
    pub input_truncated: [bool; 3],
}

impl AnalyzedSources {
    pub open spec fn token_count(self) -> nat {
        self.latest_request@.len() + self.active_task@.len() + self.recent_errors@.len()
    }

    /// The terms of the first rounds: in each round one of every source that
    /// still has one.
    pub open spec fn interleaved(self, rounds: nat) -> Seq<TermView>
        decreases rounds,
    {
        if rounds == 0 {
            Seq::empty()
        } else {
            let r = rounds - 1;
            self.interleaved(r as nat) + at_most_one(term_views(self.latest_request@), r)
                + at_most_one(term_views(self.active_task@), r) + at_most_one(
                term_views(self.recent_errors@),
                r,
            )
        }
    }

    pub open spec fn rounds(self) -> nat {
        let a = self.latest_request@.len();
        let b = self.active_task@.len();
        let c = self.recent_errors@.len();
        if a >= b && a >= c {
            a
        } else if b >= c {
            b
        } else {
            c
        }
    }

    pub(crate) proof fn rounds_are_bounded(self, rounds: nat)
        ensures
            self.interleaved(rounds).len() <= self.token_count(),
            self.interleaved(rounds).len() == smaller(rounds, self.latest_request@.len()) + smaller(
                rounds,
                self.active_task@.len(),
            ) + smaller(rounds, self.recent_errors@.len()),
        decreases rounds,
    {
        if rounds > 0 {
            self.rounds_are_bounded((rounds - 1) as nat);
        }
    }
}

pub open spec fn smaller(a: nat, b: nat) -> nat {
    if a < b {
        a
    } else {
        b
    }
}

pub open spec fn at_most_one(terms: Seq<TermView>, at: int) -> Seq<TermView> {
    if 0 <= at < terms.len() {
        seq![terms[at]]
    } else {
        Seq::empty()
    }
}

/// Where the rendering of a query stands.
pub struct Rendering {
    /// The normalized terms that were met.
    pub seen: Seq<Seq<char>>,
    /// The normalized terms that the query holds.
    pub expected: Seq<Seq<char>>,
    /// Their spellings; the query is their disjunction.
    pub parts: Seq<Seq<char>>,
    pub duplicates: nat,
    pub omitted: nat,
    pub term_limit_reached: bool,
    pub scalar_limit_reached: bool,
}

pub open spec fn nothing_rendered() -> Rendering {
    Rendering {
        seen: Seq::empty(),
        expected: Seq::empty(),
        parts: Seq::empty(),
        duplicates: 0,
        omitted: 0,
        term_limit_reached: false,
        scalar_limit_reached: false,
    }
}

/// A repeated term is dropped; a term past a limit is omitted; another is
/// appended.
pub open spec fn after_term(state: Rendering, term: TermView) -> Rendering {
    if state.seen.contains(term.normalized) {
        Rendering { duplicates: state.duplicates + 1, ..state }
    } else {
        let seen = state.seen.push(term.normalized);
        if state.parts.len() == MAX_QUERY_TERMS {
            Rendering { seen, term_limit_reached: true, omitted: state.omitted + 1, ..state }
        } else if disjunction(state.parts.push(term.source)).len() > MAX_QUERY_SCALARS {
            Rendering { seen, scalar_limit_reached: true, omitted: state.omitted + 1, ..state }
        } else {
            Rendering {
                seen,
                expected: state.expected.push(term.normalized),
                parts: state.parts.push(term.source),
                ..state
            }
        }
    }
}

pub open spec fn rendering(terms: Seq<TermView>) -> Rendering
    decreases terms.len(),
{
    if terms.len() == 0 {
        nothing_rendered()
    } else {
        after_term(rendering(terms.drop_last()), terms.last())
    }
}

/// Every term is emitted, repeated or omitted; what is emitted stays within
/// the limits and holds no term twice.
pub proof fn rendering_is_bounded(terms: Seq<TermView>)
    ensures
        ({
            let state = rendering(terms);
            &&& state.parts.len() + state.duplicates + state.omitted == terms.len()
            &&& state.parts.len() == state.expected.len()
            &&& state.parts.len() <= MAX_QUERY_TERMS
            &&& disjunction(state.parts).len() <= MAX_QUERY_SCALARS
            &&& state.expected.no_duplicates()
            &&& state.omitted > 0 <==> state.term_limit_reached || state.scalar_limit_reached
            &&& forall|i: int|
                0 <= i < state.expected.len() ==> state.seen.contains(#[trigger] state.expected[i])
            &&& forall|i: int|
                0 <= i < terms.len() ==> state.seen.contains((#[trigger] terms[i]).normalized)
        }),
    decreases terms.len(),
{
    if terms.len() > 0 {
        let before = rendering(terms.drop_last());
        let term = terms.last();
        let state = rendering(terms);
        rendering_is_bounded(terms.drop_last());
        if !before.seen.contains(term.normalized) {
            assert(state.seen == before.seen.push(term.normalized));
            assert(state.seen.last() == term.normalized);
            assert forall|s: Seq<char>| before.seen.contains(s) implies state.seen.contains(s) by {
                let k = choose|k: int| 0 <= k < before.seen.len() && before.seen[k] == s;
                assert(state.seen[k] == s);
            }
            if state.parts.len() > before.parts.len() {
                assert forall|a: int, b: int|
                    0 <= a < state.expected.len() && 0 <= b < state.expected.len() && a
                        != b implies state.expected[a] != state.expected[b] by {
                    if a < before.expected.len() {
                        assert(before.seen.contains(before.expected[a]));
                    }
                    if b < before.expected.len() {
                        assert(before.seen.contains(before.expected[b]));
                    }
                }
            }
        }
        assert forall|i: int| 0 <= i < terms.len() implies state.seen.contains(
            (#[trigger] terms[i]).normalized,
        ) by {
            if i < terms.len() - 1 {
                assert(terms.drop_last()[i] == terms[i]);
            }
        }
        assert forall|i: int| 0 <= i < state.expected.len() implies state.seen.contains(
            #[trigger] state.expected[i],
        ) by {
            if i < before.expected.len() {
                assert(state.expected[i] == before.expected[i]);
            }
        }
    }
}

/// A query that the compiler made. Even a local search text may hold private
/// session information.
#[derive(Clone, PartialEq, Eq)]
pub struct LiteralQuery(String);

impl LiteralQuery {
    pub closed spec fn text(self) -> Seq<char> {
        self.0@
    }

    pub fn as_str(&self) -> (text: &str)
        ensures
            text@ == self.text(),
    {
        self.0.as_str()
    }
}

/// The result of compiling a query.
#[derive(Clone)]
pub struct QueryCompilation {
    /// Nothing where no term was analyzed: an empty retrieval, never a match
    /// of everything.
    pub query: Option<LiteralQuery>,
    pub diagnostics: QueryDiagnostics,
}

/// A query while it is rendered, round by round.
pub struct QueryBuilder {
    sources: AnalyzedSources,
    round: usize,
    seen: Vec<String>,
    expected: Vec<String>,
    parts: Ghost<Seq<Seq<char>>>,
    rendered: String,
    scalars: usize,
    duplicates: usize,
    omitted: usize,
    term_limit_reached: bool,
    scalar_limit_reached: bool,
}

impl QueryBuilder {
    pub closed spec fn state(self) -> Rendering {
        Rendering {
            seen: texts(self.seen@),
            expected: texts(self.expected@),
            parts: self.parts@,
            duplicates: self.duplicates as nat,
            omitted: self.omitted as nat,
            term_limit_reached: self.term_limit_reached,
            scalar_limit_reached: self.scalar_limit_reached,
        }
    }

    pub closed spec fn input(self) -> AnalyzedSources {
        self.sources
    }

    pub closed spec fn rounds_done(self) -> nat {
        self.round as nat
    }

    closed spec fn text_fits(self) -> bool {
        self.rendered@ == disjunction(self.parts@) && self.scalars == self.rendered@.len()
    }

    /// The state is that of the rounds done so far.
    pub closed spec fn inv(self) -> bool {
        &&& self.text_fits()
        &&& self.sources.token_count() <= usize::MAX
        &&& self.state() == rendering(self.sources.interleaved(self.round as nat))
    }

    pub fn new(sources: AnalyzedSources) -> (builder: QueryBuilder)
        requires
            sources.token_count() <= usize::MAX,
        ensures
            builder.inv(),
            builder.input() == sources,
            builder.rounds_done() == 0,
            builder.state() == nothing_rendered(),
    {
        let builder = QueryBuilder {
            sources,
            round: 0,
            seen: Vec::new(),
            expected: Vec::new(),
            parts: Ghost(Seq::empty()),
            rendered: String::new(),
            scalars: 0,
            duplicates: 0,
            omitted: 0,
            term_limit_reached: false,
            scalar_limit_reached: false,
        };
        assert(builder.state().seen =~= Seq::empty());
        assert(builder.state().expected =~= Seq::empty());
        assert(builder.rendered@ =~= Seq::empty());
        builder
    }

    /// Is there another round?
    pub fn has_round(&self) -> (r: bool)
        ensures
            r == (self.rounds_done() < self.input().rounds()),
    {
        self.round < self.sources.latest_request.len() || self.round
            < self.sources.active_task.len() || self.round < self.sources.recent_errors.len()
    }

    fn take_term(&mut self, term: &Term)
        requires
            old(self).text_fits(),
            old(self).duplicates < usize::MAX,
            old(self).omitted < usize::MAX,
            old(self).state().parts.len() <= MAX_QUERY_TERMS,
            old(self).state().expected.len() == old(self).state().parts.len(),
            old(self).scalars <= MAX_QUERY_SCALARS,
        ensures
            final(self).text_fits(),
            final(self).input() == old(self).input(),
            final(self).rounds_done() == old(self).rounds_done(),
            final(self).state() == after_term(
                old(self).state(),
                (TermView { normalized: term.normalized@, source: term.source@ }),
            ),
    {
        let ghost before = self.state();
        proof {
            disjunction_grows(self.parts@, term.source@);
            reveal_strlit("");
            reveal_strlit(" OR ");
        }
        if contains_text(&self.seen, term.normalized.as_str()) {
            self.duplicates = self.duplicates + 1;
            return;
        }
        self.seen.push(copy_text(term.normalized.as_str()));
        assert(texts(self.seen@) =~= before.seen.push(term.normalized@));
        if self.expected.len() == MAX_QUERY_TERMS {
            self.term_limit_reached = true;
            self.omitted = self.omitted + 1;
            return;
        }
        let literal: String = quote_literal(term.source.as_str());
        let separator: &str = if self.scalars == 0 {
            ""
        } else {
            " OR "
        };
        let addition: String = crate::text::join(separator, literal.as_str());
        let added: usize = addition.as_str().unicode_len();
        assert(self.rendered@ + addition@ =~= disjunction(before.parts.push(term.source@))) by {
            if before.parts.len() == 0 {
                assert(self.rendered@ =~= Seq::empty());
                assert(separator@ =~= Seq::empty());
                assert(addition@ =~= literal@);
            }
        }
        if added > MAX_QUERY_SCALARS - self.scalars {
            self.scalar_limit_reached = true;
            self.omitted = self.omitted + 1;
            return;
        }
        self.rendered = crate::text::join(self.rendered.as_str(), addition.as_str());
        self.scalars = self.scalars + added;
        self.expected.push(copy_text(term.normalized.as_str()));
        assert(texts(self.expected@) =~= before.expected.push(term.normalized@));
        proof {
            self.parts@ = before.parts.push(term.source@);
        }
    }

    /// Render the next term, where there is one.
    fn take_next(&mut self, term: Option<Term>, done: Ghost<Seq<TermView>>, next: Ghost<Seq<TermView>>)
        requires
            old(self).text_fits(),
            old(self).state() == rendering(done@),
            done@.len() + next@.len() <= usize::MAX,
            next@ == (match term {
                Some(t) => seq![TermView { normalized: t.normalized@, source: t.source@ }],
                None => Seq::empty(),
            }),
        ensures
            final(self).text_fits(),
            final(self).input() == old(self).input(),
            final(self).rounds_done() == old(self).rounds_done(),
            final(self).state() == rendering(done@ + next@),
    {
        proof {
            rendering_is_bounded(done@);
        }
        match term {
            Some(t) => {
                assert((done@ + next@).drop_last() =~= done@);
                self.take_term(&t);
            },
            None => {
                assert(done@ + next@ =~= done@);
            },
        }
    }

    /// Render one round.
    pub fn advance(&mut self)
        requires
            old(self).inv(),
            old(self).rounds_done() < old(self).input().rounds(),
        ensures
            final(self).inv(),
            final(self).input() == old(self).input(),
            final(self).rounds_done() == old(self).rounds_done() + 1,
            final(self).state() == rendering(
                old(self).input().interleaved(old(self).rounds_done() + 1),
            ),
    {
        let r: usize = self.round;
        let ghost sources = self.sources;
        let ghost start = sources.interleaved(r as nat);
        let ghost first = term_views(sources.latest_request@);
        let ghost second = term_views(sources.active_task@);
        let ghost third = term_views(sources.recent_errors@);
        proof {
            sources.rounds_are_bounded((r + 1) as nat);
        }
        let term: Option<Term> = term_at(&self.sources.latest_request, r);
        self.take_next(term, Ghost(start), Ghost(at_most_one(first, r as int)));
        let term: Option<Term> = term_at(&self.sources.active_task, r);
        self.take_next(
            term,
            Ghost(start + at_most_one(first, r as int)),
            Ghost(at_most_one(second, r as int)),
        );
        let term: Option<Term> = term_at(&self.sources.recent_errors, r);
        self.take_next(
            term,
            Ghost(start + at_most_one(first, r as int) + at_most_one(second, r as int)),
            Ghost(at_most_one(third, r as int)),
        );
        self.round = r + 1;
    }

    /// The query as rendered so far.
    pub fn rendered(&self) -> (text: &str)
        requires
            self.inv(),
        ensures
            text@ == disjunction(self.state().parts),
    {
        self.rendered.as_str()
    }

    /// The normalized terms that the query holds.
    pub fn expected(&self) -> (terms: &Vec<String>)
        ensures
            texts(terms@) == self.state().expected,
    {
        &self.expected
    }

    fn diagnostics(&self) -> (diagnostics: QueryDiagnostics)
        requires
            self.inv(),
        ensures
            diagnosed(diagnostics, self.input(), self.state()),
    {
        proof {
            self.sources.rounds_are_bounded(self.round as nat);
            rendering_is_bounded(self.sources.interleaved(self.round as nat));
        }
        QueryDiagnostics {
            input_truncated: self.sources.input_truncated,
            analyzed_tokens: self.sources.latest_request.len() + self.sources.active_task.len()
                + self.sources.recent_errors.len(),
            duplicate_terms: self.duplicates,
            omitted_terms: self.omitted,
            term_limit_reached: self.term_limit_reached,
            scalar_limit_reached: self.scalar_limit_reached,
            emitted_terms: self.expected.len(),
            query_scalars: self.scalars,
        }
    }

    /// The compiled query, once every round is done and the parser has read
    /// what was rendered. Without a term the reading is not looked at.
    pub fn finish(self, reading: &ParserReading) -> (r: Result<QueryCompilation, QueryCompileError>)
        requires
            self.inv(),
        ensures
            is_compilation(r, self.input(), self.state(), *reading),
    {
        proof {
            reveal_strlit("");
            if self.parts@.len() > 0 {
                disjunction_grows(self.parts@, Seq::empty());
            }
            self.sources.rounds_are_bounded(self.round as nat);
            rendering_is_bounded(self.sources.interleaved(self.round as nat));
        }
        let diagnostics: QueryDiagnostics = self.diagnostics();
        if self.scalars == 0 {
            if diagnostics.analyzed_tokens != 0 {
                return Err(QueryCompileError::UnrepresentableTerms);
            }
            return Ok(QueryCompilation { query: None, diagnostics });
        }
        match validate_query(self.rendered.as_str(), reading, &self.expected) {
            Ok(_) => Ok(QueryCompilation { query: Some(LiteralQuery(self.rendered)), diagnostics }),
            Err(error) => Err(error),
        }
    }
}

fn term_at(terms: &Vec<Term>, at: usize) -> (term: Option<Term>)
    ensures
        at_most_one(term_views(terms@), at as int) == (match term {
            Some(t) => seq![TermView { normalized: t.normalized@, source: t.source@ }],
            None => Seq::empty(),
        }),
{
    if at < terms.len() {
        Some(
            Term {
                normalized: copy_text(terms[at].normalized.as_str()),
                source: copy_text(terms[at].source.as_str()),
            },
        )
    } else {
        None
    }
}

/// The counts of a rendering.
pub open spec fn diagnosed(
    diagnostics: QueryDiagnostics,
    sources: AnalyzedSources,
    state: Rendering,
) -> bool {
    &&& diagnostics.input_truncated == sources.input_truncated
    &&& diagnostics.analyzed_tokens == sources.token_count()
    &&& diagnostics.duplicate_terms == state.duplicates
    &&& diagnostics.omitted_terms == state.omitted
    &&& diagnostics.term_limit_reached == state.term_limit_reached
    &&& diagnostics.scalar_limit_reached == state.scalar_limit_reached
    &&& diagnostics.emitted_terms == state.parts.len()
    &&& diagnostics.query_scalars == disjunction(state.parts).len()
}

/// What a rendering is compiled to under a reading of its text.
pub open spec fn is_compilation(
    r: Result<QueryCompilation, QueryCompileError>,
    sources: AnalyzedSources,
    state: Rendering,
    reading: ParserReading,
) -> bool {
    let text = disjunction(state.parts);
    if state.parts.len() == 0 {
        match r {
            Ok(compilation) => sources.token_count() == 0 && compilation.query is None && diagnosed(
                compilation.diagnostics,
                sources,
                state,
            ),
            Err(error) => sources.token_count() > 0 && error
                == QueryCompileError::UnrepresentableTerms,
        }
    } else {
        match r {
            Ok(compilation) => query_refusal(text, reading, state.expected) is None
                && compilation.query is Some && compilation.query->0.text() == text && diagnosed(
                compilation.diagnostics,
                sources,
                state,
            ),
            Err(error) => query_refusal(text, reading, state.expected) == Some(error),
        }
    }
}

/// Compile the analyzed terms of the sources. The reading is the parser's, of
/// the text that they render to.
pub fn compile_query(sources: AnalyzedSources, reading: &ParserReading) -> (r: Result<
    QueryCompilation,
    QueryCompileError,
>)
    requires
        sources.token_count() <= usize::MAX,
    ensures
        is_compilation(r, sources, rendering(sources.interleaved(sources.rounds())), *reading),
{
    let mut builder: QueryBuilder = QueryBuilder::new(sources);
    while builder.has_round()
        invariant
            builder.inv(),
            builder.input() == sources,
            builder.rounds_done() <= sources.rounds(),
        ensures
            builder.rounds_done() == sources.rounds(),
        decreases sources.rounds() - builder.rounds_done(),
    {
        builder.advance();
    }
    builder.finish(reading)
}

/// A source cut to its limit is a prefix within the limit that ends where a
/// word ends: it is cut only past the limit, and never inside a word.
pub proof fn cut_sources_end_at_words(source: Seq<char>)
    ensures
        bounded(source).len() <= MAX_SOURCE_SCALARS || bounded(source) == source,
        bounded(source).len() <= source.len(),
        bounded(source) == source.take(bounded(source).len() as int),
        source.len() <= MAX_SOURCE_SCALARS ==> bounded(source) == source,
        bounded(source).len() < source.len() && bounded(source).len() > 0 ==> !(alphanumeric(
            bounded(source).last(),
        ) && alphanumeric(source[bounded(source).len() as int])),
{
    if source.len() <= MAX_SOURCE_SCALARS {
        assert(source.take(source.len() as int) =~= source);
    } else {
        let cut = source.take(MAX_SOURCE_SCALARS as int);
        word_removal_is_prefix(cut);
        let kept = bounded(source);
        assert(kept =~= source.take(kept.len() as int));
    }
}

pub(crate) proof fn word_removal_is_prefix(text: Seq<char>)
    ensures
        without_last_word(text).len() <= text.len(),
        without_last_word(text) == text.take(without_last_word(text).len() as int),
        without_last_word(text).len() > 0 ==> !alphanumeric(without_last_word(text).last()),
    decreases text.len(),
{
    if text.len() > 0 && alphanumeric(text.last()) {
        word_removal_is_prefix(text.drop_last());
        let kept = without_last_word(text.drop_last());
        assert(text.take(kept.len() as int) =~= text.drop_last().take(kept.len() as int));
    } else {
        assert(text.take(text.len() as int) =~= text);
    }
}

/// What the compiler renders reads back as the spellings that it emitted, so a
/// compiled query is never refused for its own shape.
pub proof fn rendered_queries_are_literal(terms: Seq<TermView>)
    requires
        rendering(terms).parts.len() > 0,
    ensures
        literals(disjunction(rendering(terms).parts)) == Some(rendering(terms).parts),
{
    literals_invert_disjunction(rendering(terms).parts, Seq::empty());
}

} // verus!
