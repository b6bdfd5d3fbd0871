//! Text, as sequences of characters.

use vstd::prelude::*;

verus! {

/// `String::push` appends one character.
pub assume_specification[ std::string::String::push ](s: &mut std::string::String, c: char)
    ensures
        final(s)@ == old(s)@.push(c),
;

/// The characters of a text.
pub fn chars_of(s: &str) -> (r: Vec<char>)
    ensures
        r@ == s@,
{
    let mut r: Vec<char> = Vec::new();
    for c in it: s.chars()
        invariant
            r@ == s@.take(it.index() as int),
            it.seq() == s@,
    {
        proof {
            assert(s@.take(it.index() as int + 1) =~= s@.take(it.index() as int).push(c));
        }
        r.push(c);
    }
    proof {
        assert(s@.take(s@.len() as int) =~= s@);
    }
    r
}

/// The text made of some of the characters of a list.
pub fn text_between(chars: &Vec<char>, from: usize, to: usize) -> (r: String)
    requires
        from <= to <= chars@.len(),
    ensures
        r@ == chars@.subrange(from as int, to as int),
{
    let mut r = String::new();
    let mut i: usize = from;
    while i < to
        invariant
            from <= i <= to <= chars@.len(),
            r@ == chars@.subrange(from as int, i as int),
        decreases to - i,
    {
        r.push(chars[i]);
        proof {
            assert(chars@.subrange(from as int, i + 1) =~= chars@.subrange(
                from as int,
                i as int,
            ).push(chars@[i as int]));
        }
        i += 1;
    }
    r
}

/// Whether two texts are equal.
pub fn same_text(a: &str, b: &str) -> (r: bool)
    ensures
        r == (a@ == b@),
{
    let x = chars_of(a);
    let y = chars_of(b);
    proof {
        assert(x@.skip(0) =~= x@);
        if x@.len() == y@.len() {
            assert(x@.subrange(0, y@.len() as int) =~= x@);
        }
    }
    x.len() == y.len() && stands_at(&x, 0, &y)
}

/// Whether a list of characters stands at a place of another.
pub fn stands_at(chars: &Vec<char>, at: usize, what: &Vec<char>) -> (r: bool)
    requires
        at <= chars@.len(),
    ensures
        r == what@.is_prefix_of(chars@.skip(at as int)),
{
    if chars.len() - at < what.len() {
        return false;
    }
    let mut i: usize = 0;
    while i < what.len()
        invariant
            i <= what@.len(),
            at + what@.len() <= chars.len(),
            forall|j: int| 0 <= j < i ==> what@[j] == chars@.skip(at as int)[j],
        decreases what.len() - i,
    {
        if chars[at + i] != what[i] {
            proof {
                assert(chars@.skip(at as int)[i as int] != what@[i as int]);
                if what@.is_prefix_of(chars@.skip(at as int)) {
                    assert(chars@.skip(at as int).subrange(0, what@.len() as int)[i as int]
                        == what@[i as int]);
                }
            }
            return false;
        }
        i += 1;
    }
    proof {
        assert(what@ =~= chars@.skip(at as int).subrange(0, what@.len() as int));
    }
    true
}

// ---------------------------------------------------------------------------
// Replacing
// ---------------------------------------------------------------------------

/// `s` with every occurrence of `from` replaced by `to`, found from the left without overlap.
pub open spec fn replaced(s: Seq<char>, from: Seq<char>, to: Seq<char>) -> Seq<char>
    decreases s.len(),
{
    if s.len() == 0 || from.len() == 0 {
        s
    } else if from.is_prefix_of(s) {
        to + replaced(s.skip(from.len() as int), from, to)
    } else {
        seq![s[0]] + replaced(s.skip(1), from, to)
    }
}

/// Replaces every occurrence of `from` by `to`, found from the left without overlap.
pub fn replace_all(s: &str, from: &str, to: &str) -> (r: String)
    requires
        from@.len() > 0,
    ensures
        r@ == replaced(s@, from@, to@),
{
    let chars = chars_of(s);
    let pattern = chars_of(from);
    let mut r = String::new();
    let mut i: usize = 0;
    proof {
        assert(s@.skip(0) =~= s@);
    }
    while i < chars.len()
        invariant
            i <= chars@.len(),
            chars@ == s@,
            pattern@ == from@,
            from@.len() > 0,
            replaced(s@, from@, to@) =~= r@ + replaced(s@.skip(i as int), from@, to@),
        decreases chars.len() - i,
    {
        if stands_at(&chars, i, &pattern) {
            r.append(to);
            proof {
                assert(s@.skip(i as int).skip(from@.len() as int) =~= s@.skip(i + from@.len()));
            }
            i += pattern.len();
        } else {
            r.push(chars[i]);
            proof {
                assert(s@.skip(i as int).skip(1) =~= s@.skip(i + 1));
            }
            i += 1;
        }
    }
    proof {
        assert(s@.skip(i as int) =~= Seq::<char>::empty());
        assert(r@ + Seq::<char>::empty() =~= r@);
    }
    r
}

// ---------------------------------------------------------------------------
// Splitting at dots
// ---------------------------------------------------------------------------

/// The parts of a text between its dots; a text without dots is one part.
pub open spec fn dot_parts(s: Seq<char>) -> Seq<Seq<char>>
    decreases s.len(),
{
    if s.len() == 0 {
        seq![seq![]]
    } else {
        let before = dot_parts(s.drop_last());
        if s.last() == '.' {
            before.push(seq![])
        } else {
            before.drop_last().push(before.last().push(s.last()))
        }
    }
}

/// Parts, joined by dots.
pub open spec fn dotted(parts: Seq<Seq<char>>) -> Seq<char>
    decreases parts.len(),
{
    if parts.len() == 0 {
        seq![]
    } else if parts.len() == 1 {
        parts[0]
    } else {
        dotted(parts.drop_last()).push('.') + parts.last()
    }
}

/// The texts of a list.
pub open spec fn texts(v: Seq<String>) -> Seq<Seq<char>> {
    Seq::new(v.len(), |i: int| v[i]@)
}

/// Every text has at least one part.
pub proof fn lemma_dot_parts_nonempty(s: Seq<char>)
    ensures
        dot_parts(s).len() > 0,
    decreases s.len(),
{
    if s.len() > 0 {
        lemma_dot_parts_nonempty(s.drop_last());
    }
}

/// Cutting a text at its dots loses nothing: its parts, joined by dots, are the text, and no
/// part holds a dot. There is at least one part.
pub proof fn law_dot_parts_restore(s: Seq<char>)
    ensures
        dot_parts(s).len() > 0,
        dotted(dot_parts(s)) == s,
        forall|i: int| 0 <= i < dot_parts(s).len() ==> !(#[trigger] dot_parts(s)[i]).contains('.'),
    decreases s.len(),
{
    let parts = dot_parts(s);
    if s.len() == 0 {
        assert(dotted(parts) =~= s);
    } else {
        let before = dot_parts(s.drop_last());
        law_dot_parts_restore(s.drop_last());
        lemma_dot_parts_nonempty(s.drop_last());
        assert(s =~= s.drop_last().push(s.last()));
        if s.last() == '.' {
            assert(parts.drop_last() =~= before);
            assert(dotted(parts) =~= s);
        } else {
            assert(parts.drop_last() =~= before.drop_last());
            if before.len() > 1 {
                assert(dotted(parts) =~= dotted(before).push(s.last()));
            } else {
                assert(parts.len() == 1);
                assert(parts[0] =~= before[0].push(s.last()));
            }
            assert forall|i: int| 0 <= i < parts.len() implies !(#[trigger] parts[i]).contains(
                '.',
            ) by {
                if i < before.len() - 1 {
                    assert(parts[i] == before[i]);
                } else {
                    assert(parts[i] == before.last().push(s.last()));
                    assert(!before[before.len() - 1].contains('.'));
                    if parts[i].contains('.') {
                        let k = choose|k: int| 0 <= k < parts[i].len() && parts[i][k] == '.';
                        if k < before.last().len() {
                            assert(before.last()[k] == '.');
                        }
                    }
                }
            }
        }
    }
}

/// A text without dots is one part.
pub proof fn lemma_one_part(s: Seq<char>)
    requires
        !s.contains('.'),
    ensures
        dot_parts(s) == seq![s],
    decreases s.len(),
{
    if s.len() == 0 {
        assert(s =~= seq![]);
    } else {
        let p = s.drop_last();
        assert(s[s.len() - 1] != '.');
        assert forall|i: int| 0 <= i < p.len() implies p[i] != '.' by {
            assert(s[i] != '.');
        }
        lemma_one_part(p);
        assert(p.push(s.last()) =~= s);
        assert(seq![p].drop_last() =~= seq![]);
        assert(dot_parts(s) =~= seq![s]);
    }
}

/// Joining two lists of parts.
pub proof fn lemma_dotted_concat(a: Seq<Seq<char>>, b: Seq<Seq<char>>)
    requires
        a.len() > 0,
        b.len() > 0,
    ensures
        dotted(a + b) == dotted(a).push('.') + dotted(b),
    decreases b.len(),
{
    assert((a + b).drop_last() =~= a + b.drop_last());
    assert((a + b).last() == b.last());
    if b.len() == 1 {
        assert(a + b.drop_last() =~= a);
    } else {
        lemma_dotted_concat(a, b.drop_last());
        assert(dotted(a + b) =~= dotted(a).push('.') + dotted(b));
    }
}

/// Cuts a text at its dots.
pub fn split_dots(s: &str) -> (r: Vec<String>)
    ensures
        texts(r@) == dot_parts(s@),
{
    let chars = chars_of(s);
    let mut r: Vec<String> = Vec::new();
    let mut start: usize = 0;
    let mut i: usize = 0;
    proof {
        assert(s@.take(0) =~= seq![]);
        assert(texts(r@).push(s@.subrange(0, 0)) =~= seq![Seq::<char>::empty()]);
        assert(dot_parts(s@.take(0)) == texts(r@).push(s@.subrange(0, 0)));
    }
    while i < chars.len()
        invariant
            chars@ == s@,
            start <= i <= chars@.len(),
            dot_parts(s@.take(i as int)) == texts(r@).push(s@.subrange(start as int, i as int)),
        decreases chars.len() - i,
    {
        let ghost before = dot_parts(s@.take(i as int));
        proof {
            assert(s@.take(i + 1).drop_last() =~= s@.take(i as int));
            assert(s@.take(i + 1).last() == s@[i as int]);
        }
        if chars[i] == '.' {
            let ghost old_r = r@;
            r.push(text_between(&chars, start, i));
            proof {
                assert(texts(r@) =~= texts(old_r).push(s@.subrange(start as int, i as int)));
                assert(s@.subrange(i + 1, i + 1) =~= Seq::<char>::empty());
            }
            start = i + 1;
        } else {
            proof {
                assert(before.drop_last() =~= texts(r@));
                assert(s@.subrange(start as int, i + 1) =~= s@.subrange(start as int, i as int).push(
                    s@[i as int],
                ));
            }
        }
        i += 1;
    }
    let ghost old_r = r@;
    r.push(text_between(&chars, start, i));
    proof {
        assert(s@.take(i as int) =~= s@);
        assert(texts(r@) =~= texts(old_r).push(s@.subrange(start as int, i as int)));
    }
    r
}

/// The place of the last dot, if there is one.
pub open spec fn is_last_dot(s: Seq<char>, i: int) -> bool {
    &&& 0 <= i < s.len()
    &&& s[i] == '.'
    &&& forall|j: int| i < j < s.len() ==> s[j] != '.'
}

/// Finds the last dot.
pub fn last_dot(chars: &Vec<char>) -> (r: Option<usize>)
    ensures
        match r {
            Some(i) => is_last_dot(chars@, i as int),
            None => !chars@.contains('.'),
        },
{
    let mut i: usize = chars.len();
    while i > 0
        invariant
            i <= chars@.len(),
            forall|j: int| i <= j < chars@.len() ==> chars@[j] != '.',
        decreases i,
    {
        i -= 1;
        if chars[i] == '.' {
            return Some(i);
        }
    }
    None
}

// ---------------------------------------------------------------------------
// Numbers
// ---------------------------------------------------------------------------

/// A decimal digit.
pub open spec fn digit(d: int) -> char {
    if d == 0 {
        '0'
    } else if d == 1 {
        '1'
    } else if d == 2 {
        '2'
    } else if d == 3 {
        '3'
    } else if d == 4 {
        '4'
    } else if d == 5 {
        '5'
    } else if d == 6 {
        '6'
    } else if d == 7 {
        '7'
    } else if d == 8 {
        '8'
    } else {
        '9'
    }
}

/// A natural number in decimal, without leading zeros.
pub open spec fn nat_text(n: nat) -> Seq<char>
    decreases n,
{
    if n < 10 {
        seq![digit(n as int)]
    } else {
        nat_text(n / 10).push(digit((n % 10) as int))
    }
}

/// An integer in decimal.
pub open spec fn int_text(n: int) -> Seq<char> {
    if n < 0 {
        seq!['-'] + nat_text((-n) as nat)
    } else {
        nat_text(n as nat)
    }
}

/// Different numbers have different texts.
pub proof fn lemma_nat_text_injective(a: nat, b: nat)
    requires
        nat_text(a) == nat_text(b),
    ensures
        a == b,
    decreases a,
{
    assert(nat_text(a).last() == digit((a % 10) as int));
    assert(nat_text(b).last() == digit((b % 10) as int));
    lemma_nat_text_len(a);
    lemma_nat_text_len(b);
    if a >= 10 && b >= 10 {
        assert(nat_text(a).drop_last() =~= nat_text(a / 10));
        assert(nat_text(b).drop_last() =~= nat_text(b / 10));
        lemma_nat_text_injective(a / 10, b / 10);
    }
}

/// The text of a number holds nothing but digits.
pub proof fn lemma_nat_text_digits(n: nat)
    ensures
        forall|i: int| 0 <= i < nat_text(n).len() ==> '0' <= #[trigger] nat_text(n)[i] <= '9',
    decreases n,
{
    if n >= 10 {
        let before = nat_text(n / 10);
        lemma_nat_text_digits(n / 10);
        assert forall|i: int| 0 <= i < nat_text(n).len() implies '0' <= #[trigger] nat_text(
            n,
        )[i] <= '9' by {
            if i < before.len() {
                assert(nat_text(n)[i] == before[i]);
            }
        }
    }
}

proof fn lemma_nat_text_len(n: nat)
    ensures
        nat_text(n).len() >= 1,
        n >= 10 ==> nat_text(n).len() >= 2,
    decreases n,
{
    if n >= 10 {
        lemma_nat_text_len(n / 10);
    }
}

fn digit_char(d: u64) -> (c: char)
    requires
        d < 10,
    ensures
        c == digit(d as int),
{
    if d == 0 {
        '0'
    } else if d == 1 {
        '1'
    } else if d == 2 {
        '2'
    } else if d == 3 {
        '3'
    } else if d == 4 {
        '4'
    } else if d == 5 {
        '5'
    } else if d == 6 {
        '6'
    } else if d == 7 {
        '7'
    } else if d == 8 {
        '8'
    } else {
        '9'
    }
}

/// Appends a natural number in decimal.
pub fn push_nat(s: &mut String, n: u64)
    ensures
        final(s)@ == old(s)@ + nat_text(n as nat),
    decreases n,
{
    if n >= 10 {
        push_nat(s, n / 10);
    }
    s.push(digit_char(n % 10));
    proof {
        assert(s@ =~= old(s)@ + nat_text(n as nat));
    }
}

/// An integer in decimal.
pub fn int_to_text(n: i64) -> (r: String)
    ensures
        r@ == int_text(n as int),
{
    let mut r = String::new();
    if n < 0 {
        r.push('-');
        push_nat(&mut r, (-(n + 1)) as u64 + 1);
    } else {
        push_nat(&mut r, n as u64);
    }
    proof {
        assert(r@ =~= int_text(n as int));
    }
    r
}

// ---------------------------------------------------------------------------
// Laws
// ---------------------------------------------------------------------------

/// Pieces with a text between them.
pub open spec fn with_between(pieces: Seq<Seq<char>>, between: Seq<char>) -> Seq<char>
    decreases pieces.len(),
{
    if pieces.len() == 0 {
        seq![]
    } else if pieces.len() == 1 {
        pieces[0]
    } else {
        pieces[0] + between + with_between(pieces.skip(1), between)
    }
}

/// A text stands at a place of another.
pub open spec fn occurs_at(what: Seq<char>, s: Seq<char>, at: int) -> bool {
    0 <= at && at + what.len() <= s.len() && s.subrange(at, at + what.len()) == what
}

/// The pieces of a text between the occurrences of another, found from the left: no occurrence
/// starts within a piece, not even one that reaches into what follows.
pub open spec fn pieces_between(pieces: Seq<Seq<char>>, what: Seq<char>) -> bool {
    &&& pieces.len() >= 1
    &&& forall|k: int, at: int|
        #![trigger occurs_at(what, with_between(pieces.skip(k), what), at)]
        0 <= k < pieces.len() && 0 <= at < pieces[k].len() ==> !occurs_at(
            what,
            with_between(pieces.skip(k), what),
            at,
        )
}

/// One more character at the start of the first piece.
proof fn lemma_longer_first_piece(pieces: Seq<Seq<char>>, c: char, between: Seq<char>)
    requires
        pieces.len() >= 1,
    ensures
        with_between(pieces.update(0, seq![c] + pieces[0]), between) == seq![c] + with_between(
            pieces,
            between,
        ),
{
    let longer = pieces.update(0, seq![c] + pieces[0]);
    assert(longer.skip(1) =~= pieces.skip(1));
    assert(with_between(longer, between) =~= seq![c] + with_between(pieces, between));
}

/// An empty piece at the start.
proof fn lemma_empty_first_piece(pieces: Seq<Seq<char>>, between: Seq<char>)
    requires
        pieces.len() >= 1,
    ensures
        with_between(seq![Seq::<char>::empty()] + pieces, between) == between + with_between(
            pieces,
            between,
        ),
{
    let longer = seq![Seq::<char>::empty()] + pieces;
    assert(longer.skip(1) =~= pieces);
    assert(with_between(longer, between) =~= between + with_between(pieces, between));
}

/// The pieces stay between occurrences if an occurrence comes before them.
proof fn lemma_occurrence_first(pieces: Seq<Seq<char>>, what: Seq<char>)
    requires
        pieces_between(pieces, what),
    ensures
        pieces_between(seq![Seq::<char>::empty()] + pieces, what),
{
    let longer = seq![Seq::<char>::empty()] + pieces;
    assert forall|k: int, at: int|
        #![trigger occurs_at(what, with_between(longer.skip(k), what), at)]
        0 <= k < longer.len() && 0 <= at < longer[k].len() implies !occurs_at(
        what,
        with_between(longer.skip(k), what),
        at,
    ) by {
        if k > 0 {
            assert(longer.skip(k) =~= pieces.skip(k - 1));
            assert(!occurs_at(what, with_between(pieces.skip(k - 1), what), at));
        }
    }
}

/// The pieces stay between occurrences if a character comes before them at which none starts.
proof fn lemma_character_first(pieces: Seq<Seq<char>>, c: char, what: Seq<char>)
    requires
        pieces_between(pieces, what),
        !occurs_at(what, seq![c] + with_between(pieces, what), 0),
    ensures
        pieces_between(pieces.update(0, seq![c] + pieces[0]), what),
{
    let longer = pieces.update(0, seq![c] + pieces[0]);
    let rest = with_between(pieces, what);
    let s = seq![c] + rest;
    lemma_longer_first_piece(pieces, c, what);
    assert forall|k: int, at: int|
        #![trigger occurs_at(what, with_between(longer.skip(k), what), at)]
        0 <= k < longer.len() && 0 <= at < longer[k].len() implies !occurs_at(
        what,
        with_between(longer.skip(k), what),
        at,
    ) by {
        if k > 0 {
            assert(longer.skip(k) =~= pieces.skip(k));
            assert(!occurs_at(what, with_between(pieces.skip(k), what), at));
        } else {
            assert(longer.skip(0) =~= longer);
            if at > 0 && occurs_at(what, s, at) {
                assert(pieces.skip(0) =~= pieces);
                assert(!occurs_at(what, with_between(pieces.skip(0), what), at - 1));
                assert(s.subrange(at, at + what.len()) =~= rest.subrange(
                    at - 1,
                    at - 1 + what.len(),
                ));
            }
        }
    }
}

/// Replacing keeps the pieces of a text between the occurrences, and puts the new text between
/// them. It misses no occurrence and touches nothing else.
pub proof fn law_every_occurrence_is_replaced(s: Seq<char>, from: Seq<char>, to: Seq<char>)
    requires
        from.len() > 0,
    ensures
        exists|pieces: Seq<Seq<char>>|
            {
                &&& #[trigger] pieces_between(pieces, from)
                &&& s == with_between(pieces, from)
                &&& replaced(s, from, to) == with_between(pieces, to)
            },
    decreases s.len(),
{
    if s.len() == 0 {
        let pieces = seq![s];
        assert(pieces_between(pieces, from));
        assert(with_between(pieces, from) == s && with_between(pieces, to) == s);
    } else {
        let occurs = from.is_prefix_of(s);
        let rest = if occurs {
            s.skip(from.len() as int)
        } else {
            s.skip(1)
        };
        law_every_occurrence_is_replaced(rest, from, to);
        let tail = choose|pieces: Seq<Seq<char>>|
            {
                &&& #[trigger] pieces_between(pieces, from)
                &&& rest == with_between(pieces, from)
                &&& replaced(rest, from, to) == with_between(pieces, to)
            };
        if occurs {
            let pieces = seq![Seq::<char>::empty()] + tail;
            lemma_occurrence_first(tail, from);
            lemma_empty_first_piece(tail, from);
            lemma_empty_first_piece(tail, to);
            assert(s =~= s.subrange(0, from.len() as int) + rest);
            assert(pieces_between(pieces, from));
        } else {
            let pieces = tail.update(0, seq![s[0]] + tail[0]);
            assert(s =~= seq![s[0]] + rest);
            assert(occurs_at(from, s, 0) ==> from.is_prefix_of(s));
            lemma_character_first(tail, s[0], from);
            lemma_longer_first_piece(tail, s[0], from);
            lemma_longer_first_piece(tail, s[0], to);
            assert(pieces_between(pieces, from));
        }
    }
}

/// The number that decimal digits stand for.
pub open spec fn decimal(digits: Seq<char>) -> int
    decreases digits.len(),
{
    if digits.len() == 0 {
        0
    } else {
        10 * decimal(digits.drop_last()) + (digits.last() as int - '0' as int)
    }
}

/// Reading the text of a natural number gives back the number. The text is made of digits, and
/// starts with a zero only if it is the text of zero, which is one digit.
pub proof fn law_natural_numbers_are_read_back(n: nat)
    ensures
        decimal(nat_text(n)) == n,
        nat_text(n).len() > 0,
        n > 0 ==> nat_text(n)[0] != '0',
        n == 0 ==> nat_text(n).len() == 1,
        forall|i: int|
            0 <= i < nat_text(n).len() ==> '0' <= (#[trigger] nat_text(n)[i]) && nat_text(n)[i]
                <= '9',
    decreases n,
{
    reveal_with_fuel(decimal, 2);
    if n >= 10 {
        law_natural_numbers_are_read_back(n / 10);
        assert(nat_text(n).drop_last() =~= nat_text(n / 10));
    } else {
        assert(nat_text(n).drop_last() =~= seq![]);
    }
}

/// Reading the text of an integer gives back the integer: a minus sign stands before the digits
/// of a negative number, and nothing else before any digits.
pub proof fn law_integers_are_read_back(n: int)
    ensures
        n >= 0 ==> decimal(int_text(n)) == n && int_text(n)[0] != '-',
        n < 0 ==> int_text(n)[0] == '-' && decimal(int_text(n).skip(1)) == -n,
        n >= 0 ==> int_text(n) == nat_text(n as nat),
        n < 0 ==> int_text(n).skip(1) == nat_text((-n) as nat),
{
    if n < 0 {
        law_natural_numbers_are_read_back((-n) as nat);
        assert(int_text(n).skip(1) =~= nat_text((-n) as nat));
    } else {
        law_natural_numbers_are_read_back(n as nat);
        lemma_nat_text_digits(n as nat);
    }
}

} // verus!
