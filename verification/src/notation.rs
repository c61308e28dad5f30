//! Writing dice expressions and pools as text, and the proof that reading
//! the text gives them back.

use crate::dice::{
    expression_from, expression_of, lemma_term_advances, numbered_term_at, operator_of, sides_at,
    tail_at, term_at, Expression, ExpressionModel, Operator,
};
use crate::parser::ParseFailure;
use crate::cofd::{
    modifier_of, modifiers_at, plain_pool, pool_of, word_end, Again, Modifier, PoolSpec,
};
use crate::text::{
    decimal, digits_end, is_blank, is_digit, is_name_char, is_name_start, name_end,
    numeral_value, push_decimal, skip_blank,
};
use vstd::prelude::*;

verus! {

/// The character that an operator is written as.
pub open spec fn operator_char(op: Operator) -> char {
    match op {
        Operator::Plus => '+',
        Operator::Minus => '-',
    }
}

/// The text of an expression: numbers in decimal, a dice term as its count,
/// `d` and its sides, a variable as `$` and its name, and the operands of
/// an operator on either side of it, without blanks.
pub open spec fn written(e: ExpressionModel) -> Seq<char>
    decreases e,
{
    match e {
        ExpressionModel::IntegerLiteral(value) => decimal(value as nat),
        ExpressionModel::DiceTerm(count, sides) => decimal(count as nat).push('d') + decimal(
            sides as nat,
        ),
        ExpressionModel::VariableRef(name) => seq!['$'] + name,
        ExpressionModel::BinaryOp(op, left, right) => written(*left).push(operator_char(op))
            + written(*right),
    }
}

/// Whether `name` can be written after `$`: a letter or an underscore,
/// followed by letters, digits and underscores.
pub open spec fn is_name(name: Seq<char>) -> bool {
    &&& name.len() >= 1
    &&& is_name_start(name[0])
    &&& forall|k: int| 0 <= k < name.len() ==> is_name_char(#[trigger] name[k])
}

/// Whether `e` is a single term.
pub open spec fn is_term(e: ExpressionModel) -> bool {
    !(e is BinaryOp)
}

/// Whether `e` is an expression as the grammar builds them: its dice terms
/// have at least one die and one side, its variables have names, and the
/// right operand of every operator is a single term.
pub open spec fn grammatical(e: ExpressionModel) -> bool
    decreases e,
{
    match e {
        ExpressionModel::IntegerLiteral(_) => true,
        ExpressionModel::DiceTerm(count, sides) => count >= 1 && sides >= 1,
        ExpressionModel::VariableRef(name) => is_name(name),
        ExpressionModel::BinaryOp(_, left, right) => grammatical(*left) && is_term(*right)
            && grammatical(*right),
    }
}

/// A decimal numeral is a run of at least one digit.
pub proof fn lemma_decimal_is_digits(n: nat)
    ensures
        decimal(n).len() >= 1,
        forall|k: int| 0 <= k < decimal(n).len() ==> is_digit(#[trigger] decimal(n)[k]),
    decreases n,
{
    if n >= 10 {
        lemma_decimal_is_digits(n / 10);
    }
}

/// A run of digits that is followed by no digit ends where it ends.
pub proof fn lemma_digits_run(s: Seq<char>, from: int, to: int)
    requires
        0 <= from <= to <= s.len(),
        forall|k: int| from <= k < to ==> is_digit(#[trigger] s[k]),
        to < s.len() ==> !is_digit(s[to]),
    ensures
        digits_end(s, from) == to,
    decreases to - from,
{
    if from < to {
        lemma_digits_run(s, from + 1, to);
    }
}

/// A run of name characters that is followed by no name character ends
/// where it ends.
pub proof fn lemma_name_run(s: Seq<char>, from: int, to: int)
    requires
        0 <= from <= to <= s.len(),
        forall|k: int| from <= k < to ==> is_name_char(#[trigger] s[k]),
        to < s.len() ==> !is_name_char(s[to]),
    ensures
        name_end(s, from) == to,
    decreases to - from,
{
    if from < to {
        lemma_name_run(s, from + 1, to);
    }
}

/// Every character up to the end of a run of name characters is one.
pub proof fn lemma_name_end_is_run(s: Seq<char>, from: int)
    requires
        0 <= from <= s.len(),
    ensures
        from <= name_end(s, from) <= s.len(),
        forall|k: int| from <= k < name_end(s, from) ==> is_name_char(#[trigger] s[k]),
    decreases s.len() - from,
{
    if from < s.len() && is_name_char(s[from]) {
        lemma_name_end_is_run(s, from + 1);
    }
}

/// The value of the numeral of `n` is `n`, wherever in a text it stands.
pub proof fn lemma_numeral_of_decimal(s: Seq<char>, from: int, n: nat)
    requires
        0 <= from,
        from + decimal(n).len() <= s.len(),
        s.subrange(from, from + decimal(n).len()) == decimal(n),
    ensures
        numeral_value(s, from, from + decimal(n).len()) == n,
    decreases n,
{
    let to = from + decimal(n).len();
    assert(s[to - 1] == decimal(n)[decimal(n).len() - 1]) by {
        assert(s.subrange(from, to)[to - 1 - from] == s[to - 1]);
    }
    if n < 10 {
        assert(numeral_value(s, from, from) == 0);
    } else {
        let shorter = decimal(n / 10);
        lemma_decimal_is_digits(n / 10);
        assert(s.subrange(from, from + shorter.len()) == shorter) by {
            assert(s.subrange(from, from + shorter.len()) =~= s.subrange(from, to).subrange(
                0,
                shorter.len() as int,
            ));
            assert(decimal(n).subrange(0, shorter.len() as int) =~= shorter);
        }
        lemma_numeral_of_decimal(s, from, n / 10);
    }
}

/// Whether a term may end at `to`: the text ends there, or an operator
/// stands there.
pub open spec fn term_may_end(s: Seq<char>, to: int) -> bool {
    to == s.len() || (0 <= to < s.len() && operator_of(s[to]) is Some)
}

/// A written term is read back as itself, wherever in a text it stands, if
/// the text ends after it or goes on with an operator.
pub proof fn lemma_read_written_term(s: Seq<char>, from: int, term: ExpressionModel)
    requires
        is_term(term),
        grammatical(term),
        0 <= from,
        from + written(term).len() <= s.len(),
        s.subrange(from, from + written(term).len()) == written(term),
        term_may_end(s, from + written(term).len()),
    ensures
        term_at(s, from) == Ok::<(ExpressionModel, int), ParseFailure>(
            (term, from + written(term).len()),
        ),
{
    let text = written(term);
    let to = from + text.len();
    assert forall|k: int| 0 <= k < text.len() implies s[from + k] == text[k] by {
        assert(s.subrange(from, to)[k] == s[from + k]);
    }
    match term {
        ExpressionModel::IntegerLiteral(value) => {
            lemma_decimal_is_digits(value as nat);
            assert(s[from] == text[0]);
            assert forall|k: int| from <= k < to implies is_digit(#[trigger] s[k]) by {
                assert(s[k] == text[k - from]);
            }
            lemma_digits_run(s, from, to);
            lemma_numeral_of_decimal(s, from, value as nat);
            assert(skip_blank(s, to) == to);
            assert(numbered_term_at(s, from) == Ok::<(ExpressionModel, int), ParseFailure>(
                (term, to),
            ));
        },
        ExpressionModel::DiceTerm(count, sides) => {
            let first = decimal(count as nat);
            let second = decimal(sides as nat);
            lemma_decimal_is_digits(count as nat);
            lemma_decimal_is_digits(sides as nat);
            let d = from + first.len();
            assert(s[from] == text[0]);
            assert(text[0] == first[0]);
            assert(s[d] == text[first.len() as int]);
            assert(s[d] == 'd');
            assert forall|k: int| from <= k < d implies is_digit(#[trigger] s[k]) by {
                assert(s[k] == text[k - from]);
                assert(text[k - from] == first[k - from]);
            }
            assert forall|k: int| d + 1 <= k < to implies is_digit(#[trigger] s[k]) by {
                assert(s[k] == text[k - from]);
                assert(text[k - from] == second[k - d - 1]);
            }
            lemma_digits_run(s, from, d);
            lemma_digits_run(s, d + 1, to);
            assert(s.subrange(from, d) =~= first);
            assert(text.len() == first.len() + 1 + second.len());
            assert forall|k: int| 0 <= k < second.len() implies s.subrange(d + 1, to)[k]
                == second[k] by {
                assert(s[d + 1 + k] == text[d + 1 + k - from]);
                assert(text[d + 1 + k - from] == second[k]);
            }
            assert(s.subrange(d + 1, to) =~= second);
            lemma_numeral_of_decimal(s, from, count as nat);
            lemma_numeral_of_decimal(s, d + 1, sides as nat);
            assert(skip_blank(s, d) == d);
            assert(is_digit(s[d + 1]));
            assert(skip_blank(s, d + 1) == d + 1);
            assert(sides_at(s, d + 1) == Ok::<(u32, int), ParseFailure>((sides, to)));
            assert(numbered_term_at(s, from) == Ok::<(ExpressionModel, int), ParseFailure>(
                (term, to),
            ));
        },
        ExpressionModel::VariableRef(name) => {
            assert(s[from] == text[0]);
            assert(s[from + 1] == text[1]);
            assert forall|k: int| from + 1 <= k < to implies is_name_char(#[trigger] s[k]) by {
                assert(s[k] == text[k - from]);
                assert(text[k - from] == name[k - from - 1]);
            }
            lemma_name_run(s, from + 1, to);
            assert(text.len() == 1 + name.len());
            assert forall|k: int| 0 <= k < name.len() implies s.subrange(from + 1, to)[k]
                == name[k] by {
                assert(s[from + 1 + k] == text[1 + k]);
                assert(text[1 + k] == name[k]);
            }
            assert(s.subrange(from + 1, to) =~= name);
        },
        ExpressionModel::BinaryOp(_, _, _) => {},
    }
}

/// Reading a written expression from the start of a text arrives at its end
/// with the expression in hand, if the text ends there or goes on with an
/// operator.
pub proof fn lemma_read_written_prefix(e: ExpressionModel, rest: Seq<char>)
    requires
        grammatical(e),
        rest.len() == 0 || operator_of(rest[0]) is Some,
    ensures
        expression_from(written(e) + rest, 0) == tail_at(
            written(e) + rest,
            written(e).len() as int,
            e,
        ),
    decreases e,
{
    let s = written(e) + rest;
    match e {
        ExpressionModel::BinaryOp(op, left, right) => {
            let mid = written(*left).len() as int;
            let end = written(e).len() as int;
            let after = seq![operator_char(op)] + written(*right) + rest;
            assert(s =~= written(*left) + after);
            assert(operator_of(after[0]) == Some(op));
            lemma_read_written_prefix(*left, after);
            assert(s[mid] == operator_char(op));
            assert(skip_blank(s, mid) == mid);
            assert(s.subrange(mid + 1, end) =~= written(*right));
            if rest.len() > 0 {
                assert(s[end] == rest[0]);
            }
            lemma_read_written_term(s, mid + 1, *right);
        },
        _ => {
            assert(s.subrange(0, written(e).len() as int) =~= written(e));
            if rest.len() > 0 {
                assert(s[written(e).len() as int] == rest[0]);
            }
            lemma_read_written_term(s, 0, e);
        },
    }
}

/// Reading what was written gives the expression back.
pub proof fn lemma_read_written(e: ExpressionModel)
    requires
        grammatical(e),
    ensures
        expression_of(written(e)) == Ok::<ExpressionModel, ParseFailure>(e),
{
    lemma_read_written_prefix(e, Seq::empty());
    assert(written(e) + Seq::<char>::empty() =~= written(e));
}

/// A term that is read is a single, grammatical term.
pub proof fn lemma_term_is_grammatical(s: Seq<char>, i: int)
    requires
        0 <= i <= s.len(),
    ensures
        term_at(s, i) matches Ok((term, end)) ==> is_term(term) && grammatical(term),
{
    lemma_term_advances(s, i);
    crate::text::lemma_skip_blank_bounds(s, i);
    let from = skip_blank(s, i);
    if from + 1 < s.len() && is_name_start(s[from + 1]) {
        lemma_name_end_is_run(s, from + 1);
        let name = s.subrange(from + 1, name_end(s, from + 1));
        assert(name_end(s, from + 1) == name_end(s, from + 2));
        lemma_name_end_is_run(s, from + 2);
        assert(name[0] == s[from + 1]);
        assert forall|k: int| 0 <= k < name.len() implies is_name_char(#[trigger] name[k]) by {
            assert(name[k] == s[from + 1 + k]);
        }
    }
}

/// What follows a grammatical expression is read into a grammatical
/// expression.
pub proof fn lemma_tail_is_grammatical(s: Seq<char>, i: int, left: ExpressionModel)
    requires
        grammatical(left),
    ensures
        tail_at(s, i, left) matches Ok(e) ==> grammatical(e),
    decreases s.len() - i,
{
    let at = skip_blank(s, i);
    if 0 <= i <= at < s.len() {
        match operator_of(s[at]) {
            Some(op) => {
                lemma_term_advances(s, at + 1);
                lemma_term_is_grammatical(s, at + 1);
                match term_at(s, at + 1) {
                    Ok((right, end)) => {
                        lemma_tail_is_grammatical(
                            s,
                            end,
                            ExpressionModel::BinaryOp(op, Box::new(left), Box::new(right)),
                        );
                    },
                    Err(_) => {},
                }
            },
            None => {},
        }
    }
}

/// Every expression that is read is grammatical, so writing it and reading
/// it again gives the same expression.
pub proof fn lemma_read_is_grammatical(s: Seq<char>)
    ensures
        expression_of(s) matches Ok(e) ==> grammatical(e) && expression_of(written(e)) == Ok::<
            ExpressionModel,
            ParseFailure,
        >(e),
{
    lemma_term_is_grammatical(s, 0);
    match term_at(s, 0) {
        Ok((first, end)) => {
            lemma_tail_is_grammatical(s, end, first);
            match tail_at(s, end, first) {
                Ok(e) => {
                    lemma_read_written(e);
                },
                Err(_) => {},
            }
        },
        Err(_) => {},
    }
}

impl Operator {
    /// The character that the operator is written as.
    pub fn symbol(&self) -> (c: char)
        ensures
            c == operator_char(*self),
    {
        match self {
            Operator::Plus => '+',
            Operator::Minus => '-',
        }
    }
}

impl Expression {
    /// Appends the text of the expression to `out`.
    fn write_to(&self, out: &mut String)
        ensures
            final(out)@ == old(out)@ + written(self@),
        decreases self,
    {
        match self {
            Expression::IntegerLiteral(value) => {
                push_decimal(out, *value as u64);
            },
            Expression::DiceTerm(count, sides) => {
                push_decimal(out, *count as u64);
                out.push('d');
                push_decimal(out, *sides as u64);
                assert(out@ =~= old(out)@ + (decimal(*count as nat).push('d') + decimal(
                    *sides as nat,
                )));
            },
            Expression::VariableRef(name) => {
                out.push('$');
                out.append(name.as_str());
                assert(out@ =~= old(out)@ + (seq!['$'] + name@));
            },
            Expression::BinaryOp(op, left, right) => {
                left.write_to(out);
                out.push(op.symbol());
                right.write_to(out);
                assert(out@ =~= old(out)@ + (written(left@).push(operator_char(*op)) + written(
                    right@,
                )));
            },
        }
    }

    /// The expression as text. An expression that was read from text is
    /// read back from this text as itself.
    pub fn notation(&self) -> (text: String)
        ensures
            text@ == written(self@),
    {
        let mut text = String::new();
        self.write_to(&mut text);
        text
    }
}

/// The word for each again rule.
pub open spec fn again_word(again: Again) -> Seq<char> {
    match again {
        Again::Eight => "8-again"@,
        Again::Nine => "9-again"@,
        Again::Ten => "10-again"@,
        Again::Never => "no-again"@,
    }
}

/// The text of a pool: its size, `rote` if it has the rote quality, and its
/// again rule, with one blank between them.
pub open spec fn written_pool(pool: PoolSpec) -> Seq<char> {
    if pool.rote {
        decimal(pool.count as nat).push(' ') + "rote"@.push(' ') + again_word(pool.again)
    } else {
        decimal(pool.count as nat).push(' ') + again_word(pool.again)
    }
}

/// A run of characters without a blank that is followed by a blank or by
/// nothing is one word.
pub proof fn lemma_word_run(s: Seq<char>, from: int, to: int)
    requires
        0 <= from <= to <= s.len(),
        forall|k: int| from <= k < to ==> !is_blank(#[trigger] s[k]),
        to < s.len() ==> is_blank(s[to]),
    ensures
        word_end(s, from) == to,
    decreases to - from,
{
    if from < to {
        lemma_word_run(s, from + 1, to);
    }
}

/// The words of the modifiers hold no blank, and each names its modifier.
pub proof fn lemma_modifier_words(again: Again)
    ensures
        modifier_of("rote"@) == Some(Modifier::Rote),
        modifier_of(again_word(again)) == Some(Modifier::Rule(again)),
        forall|k: int| 0 <= k < "rote"@.len() ==> !is_blank(#[trigger] "rote"@[k]),
        forall|k: int|
            0 <= k < again_word(again).len() ==> !is_blank(#[trigger] again_word(again)[k]),
        "rote"@.len() >= 1,
        again_word(again).len() >= 1,
{
    reveal_strlit("rote");
    reveal_strlit("8-again");
    reveal_strlit("9-again");
    reveal_strlit("10-again");
    reveal_strlit("no-again");
    assert("rote"@[0] == 'r');
    assert("8-again"@[0] == '8');
    assert("9-again"@[0] == '9');
    assert("10-again"@[0] == '1');
    assert("no-again"@[0] == 'n');
}

/// The modifiers of a pool are read from one word that stands last in the
/// text, after one blank.
proof fn lemma_read_last_modifier(s: Seq<char>, at: int, pool: PoolSpec, again: Again)
    requires
        0 <= at,
        at + 1 + again_word(again).len() == s.len(),
        s[at] == ' ',
        s.subrange(at + 1, s.len() as int) == again_word(again),
    ensures
        modifiers_at(s, at, pool, false) == Ok::<PoolSpec, ParseFailure>(
            PoolSpec { again, ..pool },
        ),
{
    lemma_modifier_words(again);
    let word = again_word(again);
    let end = s.len() as int;
    assert forall|k: int| at + 1 <= k < end implies !is_blank(#[trigger] s[k]) by {
        assert(s[k] == s.subrange(at + 1, end)[k - at - 1]);
    }
    assert(skip_blank(s, at + 1) == at + 1);
    assert(skip_blank(s, at) == at + 1);
    lemma_word_run(s, at + 1, end);
    assert(skip_blank(s, end) == end);
    assert(modifiers_at(s, end, PoolSpec { again, ..pool }, true) == Ok::<
        PoolSpec,
        ParseFailure,
    >(PoolSpec { again, ..pool }));
}

/// Reading what was written gives the pool back.
pub proof fn lemma_read_written_pool(pool: PoolSpec)
    requires
        pool.count >= 1,
        !pool.is_chance_die,
    ensures
        pool_of(written_pool(pool)) == Ok::<PoolSpec, ParseFailure>(pool),
{
    let s = written_pool(pool);
    let size = decimal(pool.count as nat);
    let n = size.len() as int;
    let word = again_word(pool.again);
    lemma_decimal_is_digits(pool.count as nat);
    lemma_modifier_words(pool.again);
    assert forall|k: int| 0 <= k < n implies s[k] == size[k] by {}
    assert(s[n] == ' ');
    assert(s[0] == size[0]);
    assert(skip_blank(s, 0) == 0);
    assert forall|k: int| 0 <= k < n implies is_digit(#[trigger] s[k]) && !is_blank(s[k]) by {
        assert(s[k] == size[k]);
    }
    lemma_digits_run(s, 0, n);
    lemma_word_run(s, 0, n);
    assert(s.subrange(0, n) =~= size);
    lemma_numeral_of_decimal(s, 0, pool.count as nat);
    let plain = plain_pool(pool.count);
    if pool.rote {
        let r = "rote"@.len() as int;
        assert(s.len() == n + 1 + r + 1 + word.len());
        assert forall|k: int| 0 <= k < r implies s[n + 1 + k] == "rote"@[k] by {}
        assert(s.subrange(n + 1, n + 1 + r) =~= "rote"@);
        assert(s[n + 1 + r] == ' ');
        assert(skip_blank(s, n + 1) == n + 1);
        assert(skip_blank(s, n) == n + 1);
        lemma_word_run(s, n + 1, n + 1 + r);
        assert forall|k: int| 0 <= k < word.len() implies s[n + 1 + r + 1 + k] == word[k] by {}
        assert(s.subrange(n + 1 + r + 1, s.len() as int) =~= word);
        lemma_read_last_modifier(s, n + 1 + r, PoolSpec { rote: true, ..plain }, pool.again);
    } else {
        assert(s.len() == n + 1 + word.len());
        assert forall|k: int| 0 <= k < word.len() implies s[n + 1 + k] == word[k] by {}
        assert(s.subrange(n + 1, s.len() as int) =~= word);
        lemma_read_last_modifier(s, n, plain, pool.again);
    }
}

impl Again {
    /// The word for this rule.
    pub fn word(&self) -> (text: &'static str)
        ensures
            text@ == again_word(*self),
    {
        match self {
            Again::Eight => "8-again",
            Again::Nine => "9-again",
            Again::Ten => "10-again",
            Again::Never => "no-again",
        }
    }
}

impl PoolSpec {
    /// The pool as text. A pool that is no chance die and has at least one
    /// die is read back from this text as itself.
    pub fn notation(&self) -> (text: String)
        ensures
            text@ == written_pool(*self),
    {
        let mut text = String::new();
        push_decimal(&mut text, self.count as u64);
        text.push(' ');
        if self.rote {
            text.append("rote");
            text.push(' ');
            text.append(self.again.word());
            assert(text@ =~= decimal(self.count as nat).push(' ') + "rote"@.push(' ') + again_word(
                self.again,
            ));
        } else {
            text.append(self.again.word());
        }
        text
    }
}

} // verus!
