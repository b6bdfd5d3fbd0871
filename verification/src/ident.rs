//! Identifiers: how names are cut into parts, and which parts are quoted.

use crate::ast::{Dialect, DialectHandler};
use crate::sql::{group_views, views, Ident, IdentView};
use crate::text::{
    chars_of, dot_parts, dotted, is_last_dot, last_dot, law_dot_parts_restore,
    lemma_dot_parts_nonempty, lemma_dotted_concat, lemma_one_part, same_text, split_dots, stands_at,
    text_between, texts,
};
use vstd::prelude::*;

verus! {

broadcast use group_views;

/// An identifier that is printed as it stands.
pub open spec fn plain(value: Seq<char>) -> IdentView {
    IdentView { value, quote_style: None }
}

/// An identifier that is printed in the quotation marks of the dialect.
pub open spec fn quoted(value: Seq<char>, h: DialectHandler) -> IdentView {
    IdentView { value, quote_style: Some(h.ident_quote) }
}

/// A template expression of the Jinja language.
pub open spec fn is_jinja(s: Seq<char>) -> bool {
    seq!['{', '{'].is_prefix_of(s) && seq!['}', '}'].is_suffix_of(s)
}

/// A character that cannot start an identifier that is not quoted.
pub open spec fn starting_forbidden(c: char) -> bool {
    !('a' <= c <= 'z' || c == '_' || c == '$')
}

/// A character that cannot stand in an identifier that is not quoted.
pub open spec fn subsequent_forbidden(c: char) -> bool {
    !('a' <= c <= 'z' || '0' <= c <= '9' || c == '_' || c == '$')
}

/// A part of a name that has to be quoted.
pub open spec fn needs_quotes(s: Seq<char>) -> bool {
    &&& s != seq!['*']
    &&& {
        ||| s.len() == 0
        ||| starting_forbidden(s[0])
        ||| s.len() > 1 && exists|i: int| 0 <= i < s.len() && subsequent_forbidden(#[trigger] s[i])
    }
}

/// One part of a name, quoted where it has to be.
pub open spec fn ident_part(s: Seq<char>, h: DialectHandler) -> IdentView {
    if needs_quotes(s) {
        quoted(s, h)
    } else {
        plain(s)
    }
}

/// The parts of a name.
pub open spec fn ident_parts(s: Seq<char>, h: DialectHandler) -> Seq<IdentView> {
    if is_jinja(s) {
        seq![plain(s)]
    } else if h.dialect == Dialect::BigQuery {
        if dot_parts(s).len() > 2 {
            seq![quoted(s, h)]
        } else {
            seq![plain(s)]
        }
    } else {
        dot_parts(s).map_values(|part: Seq<char>| ident_part(part, h))
    }
}

/// The parts of the name of a column. BigQuery quotes the table apart from the column.
pub open spec fn column_parts(s: Seq<char>, h: DialectHandler) -> Seq<IdentView> {
    if h.dialect == Dialect::BigQuery && s.contains('.') {
        let dot = choose|i: int| is_last_dot(s, i);
        ident_parts(s.take(dot), h) + ident_parts(s.skip(dot + 1), h)
    } else {
        ident_parts(s, h)
    }
}

/// The texts of identifiers, without quotation marks.
pub open spec fn values(idents: Seq<IdentView>) -> Seq<Seq<char>> {
    idents.map_values(|i: IdentView| i.value)
}

impl Ident {
    /// An identifier that is printed as it stands.
    pub fn new(value: String) -> (r: Ident)
        ensures
            r@ == plain(value@),
    {
        Ident { value, quote_style: None }
    }

    /// An identifier in quotation marks.
    pub fn with_quote(quote: crate::ast::Quote, value: String) -> (r: Ident)
        ensures
            r@ == (IdentView { value: value@, quote_style: Some(quote) }),
    {
        Ident { value, quote_style: Some(quote) }
    }
}

fn exec_starting_forbidden(c: char) -> (b: bool)
    ensures
        b == starting_forbidden(c),
{
    !(('a' <= c && c <= 'z') || c == '_' || c == '$')
}

fn exec_subsequent_forbidden(c: char) -> (b: bool)
    ensures
        b == subsequent_forbidden(c),
{
    !(('a' <= c && c <= 'z') || ('0' <= c && c <= '9') || c == '_' || c == '$')
}

fn exec_needs_quotes(s: &str) -> (b: bool)
    ensures
        b == needs_quotes(s@),
{
    proof {
        reveal_strlit("*");
        assert("*"@ =~= seq!['*']);
    }
    if same_text(s, "*") {
        return false;
    }
    let chars = chars_of(s);
    if chars.len() == 0 || exec_starting_forbidden(chars[0]) {
        return true;
    }
    if chars.len() == 1 {
        return false;
    }
    let mut i: usize = 0;
    while i < chars.len()
        invariant
            i <= chars@.len(),
            chars@ == s@,
            chars@.len() > 1,
            s@ != seq!['*'],
            forall|j: int| 0 <= j < i ==> !subsequent_forbidden(#[trigger] s@[j]),
        decreases chars.len() - i,
    {
        if exec_subsequent_forbidden(chars[i]) {
            proof {
                assert(subsequent_forbidden(s@[i as int]));
            }
            return true;
        }
        i += 1;
    }
    false
}

/// Translates one part of a name. It is quoted if it is empty or holds characters other than
/// lower case letters, digits, `_` and `$`, or starts with a digit; `*` is left as it is.
pub fn translate_ident_part(ident: String, dialect: &DialectHandler) -> (r: Ident)
    ensures
        r@ == ident_part(ident@, *dialect),
{
    if exec_needs_quotes(ident.as_str()) {
        Ident::with_quote(dialect.ident_quote, ident)
    } else {
        Ident::new(ident)
    }
}

fn exec_is_jinja(s: &str) -> (b: bool)
    ensures
        b == is_jinja(s@),
{
    let chars = chars_of(s);
    let open = vec!['{', '{'];
    let close = vec!['}', '}'];
    proof {
        assert(open@ =~= seq!['{', '{']);
        assert(close@ =~= seq!['}', '}']);
        assert(s@.skip(0) =~= s@);
    }
    if !stands_at(&chars, 0, &open) {
        return false;
    }
    let at = chars.len() - 2;
    proof {
        assert(s@.skip(at as int).subrange(0, 2) =~= s@.skip(at as int));
        assert(s@.subrange(at as int, s@.len() as int) =~= s@.skip(at as int));
    }
    stands_at(&chars, at, &close)
}

/// Translates a name into its parts. A template expression is left alone. BigQuery has names
/// of up to two parts unquoted, and others quoted as a whole.
pub fn translate_ident(ident: String, dialect: &DialectHandler) -> (r: Vec<Ident>)
    ensures
        views(r@) == ident_parts(ident@, *dialect),
{
    if exec_is_jinja(ident.as_str()) {
        let r = vec![Ident::new(ident)];
        proof {
            assert(views(r@) =~= ident_parts(ident@, *dialect));
        }
        return r;
    }
    let parts = split_dots(ident.as_str());
    match dialect.dialect {
        Dialect::BigQuery => {
            let r = if parts.len() > 2 {
                vec![Ident::with_quote(dialect.ident_quote, ident)]
            } else {
                vec![Ident::new(ident)]
            };
            proof {
                assert(views(r@) =~= ident_parts(ident@, *dialect));
            }
            r
        },
        _ => {
            let mut r: Vec<Ident> = Vec::new();
            let mut i: usize = 0;
            while i < parts.len()
                invariant
                    i <= parts@.len(),
                    r@.len() == i,
                    forall|j: int|
                        0 <= j < i ==> (#[trigger] r@[j])@ == ident_part(parts@[j]@, *dialect),
                decreases parts.len() - i,
            {
                r.push(translate_ident_part(parts[i].clone(), dialect));
                i += 1;
            }
            proof {
                assert forall|j: int| 0 <= j < r@.len() implies views(r@)[j] == ident_parts(
                    ident@,
                    *dialect,
                )[j] by {
                    assert(texts(parts@)[j] == parts@[j]@);
                }
                assert(views(r@) =~= ident_parts(ident@, *dialect));
            }
            r
        },
    }
}

/// Translates the name of a column.
pub fn translate_column(ident: String, dialect: &DialectHandler) -> (r: Vec<Ident>)
    ensures
        views(r@) == column_parts(ident@, *dialect),
{
    match dialect.dialect {
        Dialect::BigQuery => {
            let chars = chars_of(ident.as_str());
            match last_dot(&chars) {
                Some(dot) => {
                    let mut r = translate_ident(text_between(&chars, 0, dot), dialect);
                    let mut column = translate_ident(
                        text_between(&chars, dot + 1, chars.len()),
                        dialect,
                    );
                    let ghost prefix_view = views(r@);
                    let ghost column_view = views(column@);
                    let ghost prefix_idents = r@;
                    let ghost column_idents = column@;
                    r.append(&mut column);
                    proof {
                        let s = ident@;
                        let d = choose|i: int| is_last_dot(s, i);
                        assert(is_last_dot(s, dot as int));
                        assert(d == dot) by {
                            if d < dot {
                                assert(s[dot as int] != '.');
                            } else if d > dot {
                                assert(s[d] != '.');
                            }
                        }
                        assert(s.subrange(0, d) =~= s.take(d));
                        assert(s.subrange(d + 1, s.len() as int) =~= s.skip(d + 1));
                        assert(s.contains('.'));
                        assert(views(prefix_idents + column_idents) =~= prefix_view + column_view);
                    }
                    r
                },
                None => translate_ident(ident, dialect),
            }
        },
        _ => translate_ident(ident, dialect),
    }
}

// ---------------------------------------------------------------------------
// Laws
// ---------------------------------------------------------------------------

/// A name is never altered: the texts of its parts, joined by dots, are the name.
pub proof fn law_ident_text_kept(s: Seq<char>, h: DialectHandler)
    ensures
        ident_parts(s, h).len() > 0,
        dotted(values(ident_parts(s, h))) == s,
{
    let parts = ident_parts(s, h);
    law_dot_parts_restore(s);
    lemma_dot_parts_nonempty(s);
    if is_jinja(s) || h.dialect == Dialect::BigQuery {
        assert(values(parts) =~= seq![s]);
    } else {
        assert(values(parts) =~= dot_parts(s));
    }
}

/// The name of a column is never altered either.
pub proof fn law_column_text_kept(s: Seq<char>, h: DialectHandler)
    ensures
        dotted(values(column_parts(s, h))) == s,
{
    if h.dialect == Dialect::BigQuery && s.contains('.') {
        lemma_has_last_dot(s);
        let dot = choose|i: int| is_last_dot(s, i);
        let a = ident_parts(s.take(dot), h);
        let b = ident_parts(s.skip(dot + 1), h);
        law_ident_text_kept(s.take(dot), h);
        law_ident_text_kept(s.skip(dot + 1), h);
        assert(values(a + b) =~= values(a) + values(b));
        lemma_dotted_concat(values(a), values(b));
        assert(s =~= s.take(dot).push('.') + s.skip(dot + 1));
    } else {
        law_ident_text_kept(s, h);
    }
}

proof fn lemma_has_last_dot(s: Seq<char>)
    requires
        s.contains('.'),
    ensures
        exists|i: int| is_last_dot(s, i),
    decreases s.len(),
{
    if s.last() == '.' {
        assert(is_last_dot(s, s.len() - 1));
    } else {
        let p = s.drop_last();
        let k = choose|k: int| 0 <= k < s.len() && s[k] == '.';
        assert(p[k] == '.');
        lemma_has_last_dot(p);
        let i = choose|i: int| is_last_dot(p, i);
        assert(s[i] == '.');
        assert forall|j: int| i < j < s.len() implies s[j] != '.' by {
            if j < p.len() {
                assert(p[j] != '.');
            }
        }
        assert(is_last_dot(s, i));
    }
}

/// Outside BigQuery and templates, a part that is left without quotation marks is `*`, or
/// starts with a lower case letter, `_` or `$` and holds nothing but these and digits; every
/// other part stands in the quotation marks of the dialect.
pub proof fn law_unquoted_parts_are_safe(s: Seq<char>, h: DialectHandler, i: int)
    requires
        !is_jinja(s),
        h.dialect != Dialect::BigQuery,
        0 <= i < ident_parts(s, h).len(),
    ensures
        ident_parts(s, h)[i].quote_style == (if needs_quotes(ident_parts(s, h)[i].value) {
            Some(h.ident_quote)
        } else {
            None
        }),
        ident_parts(s, h)[i].quote_style is None && ident_parts(s, h)[i].value != seq!['*'] ==> {
            &&& ident_parts(s, h)[i].value.len() > 0
            &&& !starting_forbidden(ident_parts(s, h)[i].value[0])
            &&& forall|j: int|
                0 <= j < ident_parts(s, h)[i].value.len() ==> !subsequent_forbidden(
                    #[trigger] ident_parts(s, h)[i].value[j],
                )
        },
{
    let part = dot_parts(s)[i];
    assert(ident_parts(s, h)[i] == ident_part(part, h));
}

/// A table is read by the identifier that it is defined under, if its name has no dots and is
/// no template. In BigQuery, which does not quote single names that are read, the name also has
/// to do without quotation marks.
pub proof fn law_tables_are_read_by_their_names(s: Seq<char>, h: DialectHandler)
    requires
        !s.contains('.'),
        !is_jinja(s),
        h.dialect == Dialect::BigQuery ==> !needs_quotes(s),
    ensures
        ident_parts(s, h) == seq![ident_part(s, h)],
{
    lemma_one_part(s);
    assert(ident_parts(s, h) =~= seq![ident_part(s, h)]);
}

/// A character that an identifier without quotation marks can start with.
pub open spec fn is_plain_start(c: char) -> bool {
    'a' <= c && c <= 'z' || c == '_' || c == '$'
}

/// A text that is printed without quotation marks: `*`, or lower case letters, digits, `_` and
/// `$` that do not start with a digit.
pub open spec fn is_plain_name(s: Seq<char>) -> bool {
    s.len() == 1 && s[0] == '*' || s.len() > 0 && is_plain_start(s[0]) && forall|i: int|
        0 <= i < s.len() ==> (is_plain_start(#[trigger] s[i]) || '0' <= s[i] && s[i] <= '9')
}

/// An identifier holds a text, and stands in the quotation marks of the dialect exactly if the
/// text is not one that is printed without.
pub open spec fn is_quoted_as_needed(ident: IdentView, s: Seq<char>, h: DialectHandler) -> bool {
    &&& ident.value == s
    &&& ident.quote_style is None <==> is_plain_name(s)
    &&& ident.quote_style is Some ==> ident.quote_style == Some(h.ident_quote)
}

/// A text that starts with two opening braces and ends with two closing ones.
pub open spec fn is_template(s: Seq<char>) -> bool {
    &&& s.len() >= 2
    &&& s[0] == '{' && s[1] == '{'
    &&& s[s.len() - 1] == '}' && s[s.len() - 2] == '}'
}

/// A part of a name keeps its text, and is quoted exactly where it has to be.
pub proof fn law_parts_are_quoted_as_needed(s: Seq<char>, h: DialectHandler)
    ensures
        is_quoted_as_needed(ident_part(s, h), s, h),
{
    if s == seq!['*'] {
        assert(is_plain_name(s));
    } else {
        assert(s.len() == 1 && s[0] == '*' ==> s =~= seq!['*']);
        if needs_quotes(s) {
            if s.len() > 0 && !starting_forbidden(s[0]) {
                let i = choose|i: int| 0 <= i < s.len() && subsequent_forbidden(#[trigger] s[i]);
                assert(!(is_plain_start(s[i]) || '0' <= s[i] && s[i] <= '9'));
            }
        } else {
            assert forall|i: int| 0 <= i < s.len() implies (is_plain_start(#[trigger] s[i]) || '0'
                <= s[i] && s[i] <= '9') by {
                if s.len() > 1 {
                    assert(!subsequent_forbidden(s[i]));
                }
            }
        }
    }
}

/// A template is one identifier, printed as it stands. Outside BigQuery any other name has one
/// identifier for each part between dots, each quoted exactly where it has to be. In BigQuery it
/// is one identifier, in the quotation marks of the dialect exactly if it has more than one dot.
pub proof fn law_names_are_cut_at_dots(s: Seq<char>, h: DialectHandler)
    ensures
        is_template(s) ==> ident_parts(s, h) == seq![IdentView { value: s, quote_style: None }],
        !is_template(s) && h.dialect != Dialect::BigQuery ==> {
            &&& ident_parts(s, h).len() == dot_parts(s).len()
            &&& ident_parts(s, h).len() == dots(s) + 1
            &&& forall|i: int|
                0 <= i < dot_parts(s).len() ==> is_quoted_as_needed(
                    #[trigger] ident_parts(s, h)[i],
                    dot_parts(s)[i],
                    h,
                )
        },
        !is_template(s) && h.dialect == Dialect::BigQuery ==> {
            &&& ident_parts(s, h).len() == 1
            &&& ident_parts(s, h)[0].value == s
            &&& ident_parts(s, h)[0].quote_style == if dots(s) > 1 {
                Some(h.ident_quote)
            } else {
                None
            }
        },
{
    lemma_template(s);
    lemma_dots(s);
    if !is_template(s) && h.dialect != Dialect::BigQuery {
        assert forall|i: int| 0 <= i < dot_parts(s).len() implies is_quoted_as_needed(
            #[trigger] ident_parts(s, h)[i],
            dot_parts(s)[i],
            h,
        ) by {
            law_parts_are_quoted_as_needed(dot_parts(s)[i], h);
        }
    }
}

/// Outside BigQuery the identifiers of a column are those of any name: one for each part between
/// dots, each quoted exactly where it has to be, or one for a template. In BigQuery the table,
/// up to the last dot, and the column after it are named apart.
pub proof fn law_columns_are_cut_at_dots(s: Seq<char>, h: DialectHandler)
    ensures
        h.dialect != Dialect::BigQuery && is_template(s) ==> column_parts(s, h) == seq![
            IdentView { value: s, quote_style: None },
        ],
        h.dialect != Dialect::BigQuery && !is_template(s) ==> {
            &&& column_parts(s, h).len() == dot_parts(s).len()
            &&& forall|i: int|
                0 <= i < dot_parts(s).len() ==> is_quoted_as_needed(
                    #[trigger] column_parts(s, h)[i],
                    dot_parts(s)[i],
                    h,
                )
        },
        h.dialect == Dialect::BigQuery && dots(s) == 0 ==> column_parts(s, h) == ident_parts(s, h),
        forall|table: Seq<char>, column: Seq<char>|
            h.dialect == Dialect::BigQuery && s == #[trigger] (table.push('.') + column) && dots(
                column,
            ) == 0 ==> column_parts(s, h) == ident_parts(table, h) + ident_parts(column, h),
{
    law_names_are_cut_at_dots(s, h);
    lemma_dots(s);
    if h.dialect != Dialect::BigQuery && !is_template(s) {
        assert forall|i: int| 0 <= i < dot_parts(s).len() implies is_quoted_as_needed(
            #[trigger] column_parts(s, h)[i],
            dot_parts(s)[i],
            h,
        ) by {
            assert(is_quoted_as_needed(ident_parts(s, h)[i], dot_parts(s)[i], h));
        }
    }
    if h.dialect == Dialect::BigQuery {
        lemma_contains_dot(s);
        assert forall|table: Seq<char>, column: Seq<char>|
            s == #[trigger] (table.push('.') + column) && dots(
                column,
            ) == 0 implies column_parts(s, h) == ident_parts(table, h) + ident_parts(column, h) by {
            let at = table.len() as int;
            assert(s[at] == '.');
            lemma_contains_dot(column);
            assert forall|j: int| at < j < s.len() implies s[j] != '.' by {
                assert(s[j] == column[j - at - 1]);
            }
            assert(is_last_dot(s, at));
            let dot = choose|i: int| is_last_dot(s, i);
            assert(dot == at) by {
                if dot < at {
                    assert(s[at] != '.');
                } else if dot > at {
                    assert(s[dot] != '.');
                }
            }
            assert(s.take(at) =~= table);
            assert(s.skip(at + 1) =~= column);
        }
    }
}

/// The number of dots in a text.
pub open spec fn dots(s: Seq<char>) -> nat
    decreases s.len(),
{
    if s.len() == 0 {
        0
    } else if s.last() == '.' {
        dots(s.drop_last()) + 1
    } else {
        dots(s.drop_last())
    }
}

proof fn lemma_dots(s: Seq<char>)
    ensures
        dot_parts(s).len() == dots(s) + 1,
    decreases s.len(),
{
    if s.len() > 0 {
        lemma_dots(s.drop_last());
    }
}

proof fn lemma_contains_dot(s: Seq<char>)
    ensures
        s.contains('.') <==> dots(s) > 0,
    decreases s.len(),
{
    if s.len() > 0 {
        let p = s.drop_last();
        lemma_contains_dot(p);
        if s.contains('.') && s.last() != '.' {
            let k = choose|k: int| 0 <= k < s.len() && s[k] == '.';
            assert(p[k] == '.');
        }
        if s.last() == '.' {
            assert(s[s.len() - 1] == '.');
        } else if p.contains('.') {
            let k = choose|k: int| 0 <= k < p.len() && p[k] == '.';
            assert(s[k] == '.');
        }
    }
}

proof fn lemma_template(s: Seq<char>)
    ensures
        is_jinja(s) == is_template(s),
{
    let open = seq!['{', '{'];
    let close = seq!['}', '}'];
    if is_template(s) {
        assert(open =~= s.subrange(0, 2));
        assert(close =~= s.subrange(s.len() - 2, s.len() as int));
    }
    if is_jinja(s) {
        assert(s.subrange(0, 2)[0] == s[0] && s.subrange(0, 2)[1] == s[1]);
        let end = s.subrange(s.len() - 2, s.len() as int);
        assert(end[0] == s[s.len() - 2] && end[1] == s[s.len() - 1]);
    }
}

} // verus!
