//! Reading what was shown. Data made of symbols, numbers, booleans and
//! lists is shown as text that reads as the same data again, so showing
//! what was read from such a text gives the text back.

use vstd::prelude::*;
use crate::lisp::display;
use crate::lisp::display_items;
use crate::lisp::parser::atom;
use crate::lisp::parser::is_delimiter;
use crate::lisp::parser::is_symbol;
use crate::lisp::parser::parse_at;
use crate::lisp::parser::parse_list;
use crate::lisp::parser::parse_text;
use crate::lisp::parser::tokens;
use crate::lisp::parser::tokens_from;
use crate::lisp::parser::with_tokens;
use crate::lisp::parser::AtomV;
use crate::lisp::parser::Parsed;
use crate::lisp::ErrorV;
use crate::lisp::ExprV;
use crate::number::is_decimal_digit;
use crate::number::is_number_literal;
use crate::number::lemma_number_round_trip;
use crate::number::number_text;
use crate::number::NumberV;
use crate::DishV;

verus! {

/// A symbol as the reader gives it: a symbol that holds no delimiter and
/// is no boolean and no number.
pub open spec fn is_plain_symbol(s: Seq<char>) -> bool {
    &&& is_symbol(s)
    &&& forall|i: int| 0 <= i < s.len() ==> !is_delimiter(#[trigger] s[i])
    &&& s != "true"@
    &&& s != "false"@
    &&& !is_number_literal(s)
}

/// Plain data: a symbol, a number, a boolean, or a list of plain data.
pub open spec fn is_plain(e: ExprV) -> bool
    decreases e,
{
    match e {
        ExprV::Symbol(s) => is_plain_symbol(s),
        ExprV::Number(v) => v.canonical(),
        ExprV::Bool(_) => true,
        ExprV::List(items) => forall|i: int| 0 <= i < items.len() ==> is_plain(#[trigger] items[i]),
        _ => false,
    }
}

/// The tokens that write an expression.
pub open spec fn written(e: ExprV) -> Seq<Seq<char>>
    decreases e, 0nat,
{
    match e {
        ExprV::Symbol(s) => seq![s],
        ExprV::Number(v) => seq![number_text(v)],
        ExprV::Bool(b) => seq![
            if b {
                "true"@
            } else {
                "false"@
            },
        ],
        ExprV::List(items) => seq!["("@] + written_range(items, 0, items.len() as int) + seq![
            ")"@,
        ],
        _ => Seq::empty(),
    }
}

/// The tokens that write the items from `from` up to `to`.
pub open spec fn written_range(items: Seq<ExprV>, from: int, to: int) -> Seq<Seq<char>>
    decreases items, to - from,
{
    if to <= from || from < 0 || to > items.len() {
        Seq::empty()
    } else {
        written_range(items, from, to - 1) + written(items[to - 1])
    }
}

/// The tokens of a range start with the tokens of its first item.
pub proof fn lemma_written_range_first(items: Seq<ExprV>, from: int, to: int)
    requires
        0 <= from < to <= items.len(),
    ensures
        written_range(items, from, to) == written(items[from]) + written_range(items, from + 1, to),
    decreases to - from,
{
    if from + 1 == to {
        assert(written_range(items, from, from) =~= Seq::<Seq<char>>::empty());
        assert(written_range(items, from + 1, to) =~= Seq::<Seq<char>>::empty());
        assert(written_range(items, from, to) =~= written(items[from]));
        assert(written(items[from]) + Seq::<Seq<char>>::empty() =~= written(items[from]));
    } else {
        lemma_written_range_first(items, from, to - 1);
        assert((written(items[from]) + written_range(items, from + 1, to - 1)) + written(
            items[to - 1],
        ) =~= written(items[from]) + (written_range(items, from + 1, to - 1) + written(
            items[to - 1],
        )));
    }
}

/// What the one-character tokens and the booleans hold.
pub proof fn lemma_token_texts()
    ensures
        "("@ == seq!['('],
        ")"@ == seq![')'],
        "'"@ == seq!['\''],
        " "@ == seq![' '],
        "true"@ == seq!['t', 'r', 'u', 'e'],
        "false"@ == seq!['f', 'a', 'l', 's', 'e'],
{
    reveal_strlit("(");
    reveal_strlit(")");
    reveal_strlit("'");
    reveal_strlit(" ");
    reveal_strlit("true");
    reveal_strlit("false");
    assert("("@ =~= seq!['(']);
    assert(")"@ =~= seq![')']);
    assert("'"@ =~= seq!['\'']);
    assert(" "@ =~= seq![' ']);
    assert("true"@ =~= seq!['t', 'r', 'u', 'e']);
    assert("false"@ =~= seq!['f', 'a', 'l', 's', 'e']);
}

/// Whether a text can stand as one token of its own: it is not empty, it
/// holds no delimiter, and it is not a `d` alone.
pub open spec fn is_word(t: Seq<char>) -> bool {
    &&& t.len() > 0
    &&& forall|i: int| 0 <= i < t.len() ==> !is_delimiter(#[trigger] t[i])
}

/// The text of a number is a word, and starts like no symbol.
pub proof fn lemma_number_text_is_word(v: NumberV)
    requires
        v.canonical(),
    ensures
        is_word(number_text(v)),
        number_text(v)[0] == '-' || is_decimal_digit(number_text(v)[0]),
{
    let whole = crate::number::whole_text(v);
    let frac = crate::number::fraction_text(v.digits, v.scale);
    let sign: Seq<char> = if v.negative {
        seq!['-']
    } else {
        Seq::empty()
    };
    let tail: Seq<char> = if v.scale == 0 {
        Seq::empty()
    } else {
        seq!['.'] + frac
    };
    let text = number_text(v);
    assert(text == sign + whole + tail);
    assert forall|j: int| 0 <= j < whole.len() implies is_decimal_digit(#[trigger] whole[j]) by {
        if v.integer_digits().len() > 0 {
            let d = v.integer_digits()[v.integer_digits().len() - 1 - j];
            assert(d == v.digits[v.scale + v.integer_digits().len() - 1 - j]);
            crate::number::lemma_digit_char(d);
        }
    }
    assert forall|j: int| 0 <= j < frac.len() implies is_decimal_digit(#[trigger] frac[j]) by {
        if v.scale - 1 - j < v.digits.len() {
            crate::number::lemma_digit_char(v.digits[v.scale - 1 - j]);
        }
    }
    assert forall|i: int| 0 <= i < text.len() implies !is_delimiter(#[trigger] text[i]) by {
        let c = text[i];
        if i < sign.len() {
            assert(c == '-');
        } else if i < sign.len() + whole.len() {
            assert(c == whole[i - sign.len()]);
        } else {
            let k = i - sign.len() - whole.len();
            assert(c == tail[k]);
            if k > 0 {
                assert(c == frac[k - 1]);
            }
        }
    }
    assert(text[0] == if v.negative {
        '-'
    } else {
        whole[0]
    });
}

/// A token that writes plain data, other than a list, reads as that data.
pub proof fn lemma_atom_of_plain(e: ExprV)
    requires
        is_plain(e),
        !(e is List),
    ensures
        written(e).len() == 1,
        is_word(written(e)[0]),
        written(e)[0] != "("@,
        written(e)[0] != ")"@,
        written(e)[0] != "'"@,
        atom(written(e)[0]) == Ok::<AtomV, ErrorV>(AtomV::Plain(e)),
{
    lemma_token_texts();
    let t = written(e)[0];
    match e {
        ExprV::Symbol(s) => {
            assert(!is_delimiter(s[0]));
            if s.len() > 1 {
                assert(!is_delimiter(s[1]));
            }
            assert(!is_delimiter(s[s.len() - 1]));
        },
        ExprV::Number(v) => {
            lemma_number_text_is_word(v);
            lemma_number_round_trip(v);
            assert(!is_delimiter(t[0]));
            if t.len() > 1 {
                assert(!is_delimiter(t[1]));
            }
        },
        ExprV::Bool(b) => {
        },
        _ => {},
    }
}


/// What writes plain data starts with a token that is no closing
/// parenthesis.
pub proof fn lemma_written_start(e: ExprV)
    requires
        is_plain(e),
    ensures
        written(e).len() >= 1,
        written(e)[0] != ")"@,
{
    lemma_token_texts();
    if e is List {
        assert(written(e)[0] == "("@);
        assert("("@[0] != ")"@[0]);
    } else {
        lemma_atom_of_plain(e);
    }
}

/// The tokens that write plain data are parsed as that data.
pub proof fn lemma_parse_written(e: ExprV, toks: Seq<Seq<char>>, pos: int, dishes: Seq<DishV>)
    requires
        is_plain(e),
        0 <= pos,
        pos + written(e).len() <= toks.len(),
        toks.subrange(pos, pos + written(e).len()) == written(e),
    ensures
        parse_at(toks, pos, dishes) == Ok::<Parsed, ErrorV>(
            Parsed { expr: e, next: pos + written(e).len(), dishes },
        ),
    decreases e, 0nat,
{
    lemma_token_texts();
    let block = toks.subrange(pos, pos + written(e).len());
    match e {
        ExprV::List(items) => {
            let rest = written_range(items, 0, items.len() as int);
            assert(written(e).len() == rest.len() + 2);
            assert(toks[pos] == block[0]);
            assert(toks[pos] == "("@);
            assert(toks[pos + 1 + rest.len()] == block[1 + rest.len() as int]);
            assert(toks.subrange(pos + 1, pos + 1 + rest.len()) =~= rest) by {
                assert forall|j: int| 0 <= j < rest.len() implies toks[pos + 1 + j] == rest[j] by {
                    assert(toks[pos + 1 + j] == block[1 + j]);
                }
            }
            assert(items.take(0) =~= Seq::<ExprV>::empty());
            lemma_parse_items(items, 0, toks, pos + 1, dishes);
        },
        _ => {
            lemma_atom_of_plain(e);
            assert(toks[pos] == block[0]);
        },
    }
}

/// The tokens that write the items of a list from the `k`th on, and the
/// closing parenthesis behind them, are parsed as the rest of that list.
pub proof fn lemma_parse_items(
    items: Seq<ExprV>,
    k: int,
    toks: Seq<Seq<char>>,
    at: int,
    dishes: Seq<DishV>,
)
    requires
        forall|i: int| 0 <= i < items.len() ==> is_plain(#[trigger] items[i]),
        0 <= k <= items.len(),
        0 <= at,
        at + written_range(items, k, items.len() as int).len() < toks.len(),
        toks.subrange(at, at + written_range(items, k, items.len() as int).len())
            == written_range(items, k, items.len() as int),
        toks[at + written_range(items, k, items.len() as int).len()] == ")"@,
    ensures
        parse_list(toks, at, dishes, items.take(k)) == Ok::<Parsed, ErrorV>(
            Parsed {
                expr: ExprV::List(items),
                next: at + written_range(items, k, items.len() as int).len() + 1,
                dishes,
            },
        ),
    decreases items, items.len() - k,
{
    let n = items.len() as int;
    let rest = written_range(items, k, n);
    if k == n {
        assert(rest =~= Seq::<Seq<char>>::empty());
        assert(items.take(k) =~= items);
    } else {
        let first = written(items[k]);
        let more = written_range(items, k + 1, n);
        lemma_written_range_first(items, k, n);
        lemma_written_start(items[k]);
        let block = toks.subrange(at, at + rest.len());
        assert(toks[at] == block[0]);
        assert(toks[at] == first[0]);
        assert(toks.subrange(at, at + first.len()) =~= first) by {
            assert forall|j: int| 0 <= j < first.len() implies toks[at + j] == first[j] by {
                assert(toks[at + j] == block[j]);
            }
        }
        lemma_parse_written(items[k], toks, at, dishes);
        assert(toks.subrange(at + first.len(), at + first.len() + more.len()) =~= more) by {
            assert forall|j: int| 0 <= j < more.len() implies toks[at + first.len() + j]
                == more[j] by {
                assert(toks[at + first.len() + j] == block[first.len() + j]);
            }
        }
        assert(items.take(k).push(items[k]) =~= items.take(k + 1));
        lemma_parse_items(items, k + 1, toks, at + first.len(), dishes);
    }
}

/// Whether what stands at `j` in `s` ends a word: the end of the text, a
/// space or a closing parenthesis.
pub open spec fn ends_word(s: Seq<char>, j: int) -> bool {
    j == s.len() || (0 <= j < s.len() && (s[j] == ' ' || s[j] == ')'))
}

/// A run of characters that are no delimiters ends where one stands, or
/// where the text ends.
pub proof fn lemma_run_end(s: Seq<char>, i: int, j: int)
    requires
        0 <= i <= j <= s.len(),
        forall|k: int| i <= k < j ==> !is_delimiter(#[trigger] s[k]),
        j == s.len() || is_delimiter(s[j]),
    ensures
        crate::lisp::parser::run_end(s, i) == j,
    decreases j - i,
{
    if i < j {
        assert(!is_delimiter(s[i]));
        lemma_run_end(s, i + 1, j);
    }
}

/// A word that stands in a text, with the end of a word behind it, is the
/// next token of the text.
pub proof fn lemma_tokens_word(s: Seq<char>, i: int, t: Seq<char>)
    requires
        is_word(t),
        0 <= i,
        i + t.len() <= s.len(),
        s.subrange(i, i + t.len()) == t,
        ends_word(s, i + t.len()),
    ensures
        tokens_from(s, i) == with_tokens(seq![t], tokens_from(s, i + t.len())),
{
    let j = i + t.len();
    assert forall|k: int| i <= k < j implies !is_delimiter(#[trigger] s[k]) by {
        assert(s[k] == s.subrange(i, j)[k - i]);
        assert(!is_delimiter(t[k - i]));
    }
    assert(!is_delimiter(s[i]));
    if i + 1 < s.len() {
        if i + 1 < j {
            assert(!is_delimiter(s[i + 1]));
        }
    }
    lemma_run_end(s, i + 1, j);
    assert(crate::lisp::parser::token_end(s, i) == Ok::<int, ErrorV>(j));
    match tokens_from(s, j) {
        Ok(rest) => {},
        Err(_) => {},
    }
}

/// The items that are shown first are the start of what is shown of all.
pub proof fn lemma_display_prefix(items: Seq<ExprV>, k: nat, n: nat, dishes: Seq<DishV>)
    requires
        k <= n <= items.len(),
    ensures
        display_items(items, k, dishes).len() <= display_items(items, n, dishes).len(),
        display_items(items, n, dishes).take(display_items(items, k, dishes).len() as int)
            == display_items(items, k, dishes),
    decreases n - k,
{
    let short = display_items(items, k, dishes);
    let long = display_items(items, n, dishes);
    if k == n {
        assert(long.take(long.len() as int) =~= long);
    } else {
        lemma_display_prefix(items, k, (n - 1) as nat, dishes);
        let middle = display_items(items, (n - 1) as nat, dishes);
        if n == 1 {
            assert(short =~= Seq::<char>::empty());
            assert(long.take(0) =~= Seq::<char>::empty());
        } else {
            assert(long == middle + " "@ + display(items[n - 1], dishes));
            assert(long.take(short.len() as int) =~= middle.take(short.len() as int));
        }
    }
}

/// The text of plain data, standing in a text with the end of a word behind
/// it, gives the tokens that write the data.
pub proof fn lemma_tokens_of_shown(e: ExprV, s: Seq<char>, i: int, dishes: Seq<DishV>)
    requires
        is_plain(e),
        0 <= i,
        i + display(e, dishes).len() <= s.len(),
        s.subrange(i, i + display(e, dishes).len()) == display(e, dishes),
        ends_word(s, i + display(e, dishes).len()),
    ensures
        tokens_from(s, i) == with_tokens(
            written(e),
            tokens_from(s, i + display(e, dishes).len()),
        ),
    decreases e, 0nat,
{
    lemma_token_texts();
    let text = display(e, dishes);
    match e {
        ExprV::List(items) => {
            let n = items.len();
            let inner = display_items(items, n, dishes);
            assert(text == "("@ + inner + ")"@);
            assert(text.len() == inner.len() + 2);
            let block = s.subrange(i, i + text.len());
            assert(s[i] == block[0]);
            assert(s[i] == '(');
            assert(s[i + 1 + inner.len()] == block[1 + inner.len() as int]);
            assert(s.subrange(i + 1, i + 1 + inner.len()) =~= inner) by {
                assert forall|j: int| 0 <= j < inner.len() implies s[i + 1 + j] == inner[j] by {
                    assert(s[i + 1 + j] == block[1 + j]);
                }
            }
            assert(s.subrange(i, i + 1) =~= "("@);
            assert(crate::lisp::parser::token_end(s, i) == Ok::<int, ErrorV>(i + 1));
            lemma_tokens_of_items(items, 0, s, i + 1, dishes);
            let behind = tokens_from(s, i + text.len());
            let rest = written_range(items, 0, n as int);
            assert(tokens_from(s, i + 1) == with_tokens(rest + seq![")"@], behind));
            match behind {
                Ok(more) => {
                    assert(seq!["("@] + (rest + seq![")"@] + more) =~= (seq!["("@] + rest + seq![
                        ")"@,
                    ]) + more);
                },
                Err(_) => {},
            }
        },
        _ => {
            lemma_atom_of_plain(e);
            assert(text == written(e)[0]);
            lemma_tokens_word(s, i, text);
            assert(written(e) =~= seq![text]);
        },
    }
}

/// The items of a list from the `k`th on, as they are shown inside the
/// parentheses of the list, give the tokens that write them, and the
/// closing parenthesis.
pub proof fn lemma_tokens_of_items(
    items: Seq<ExprV>,
    k: nat,
    s: Seq<char>,
    start: int,
    dishes: Seq<DishV>,
)
    requires
        forall|i: int| 0 <= i < items.len() ==> is_plain(#[trigger] items[i]),
        k <= items.len(),
        0 <= start,
        start + display_items(items, items.len(), dishes).len() < s.len(),
        s.subrange(start, start + display_items(items, items.len(), dishes).len())
            == display_items(items, items.len(), dishes),
        s[start + display_items(items, items.len(), dishes).len()] == ')',
    ensures
        tokens_from(s, start + display_items(items, k, dishes).len()) == with_tokens(
            written_range(items, k as int, items.len() as int) + seq![")"@],
            tokens_from(s, start + display_items(items, items.len(), dishes).len() + 1),
        ),
    decreases items, items.len() - k,
{
    lemma_token_texts();
    let n = items.len();
    let inner = display_items(items, n, dishes);
    let end = start + inner.len();
    let here = start + display_items(items, k, dishes).len();
    let behind = tokens_from(s, end + 1);
    let block = s.subrange(start, end);
    if k == n {
        assert(written_range(items, k as int, n as int) =~= Seq::<Seq<char>>::empty());
        assert(s.subrange(end, end + 1) =~= ")"@);
        assert(crate::lisp::parser::token_end(s, end) == Ok::<int, ErrorV>(end + 1));
        match behind {
            Ok(more) => {
                assert(seq![")"@] + more =~= (Seq::<Seq<char>>::empty() + seq![")"@]) + more);
            },
            Err(_) => {},
        }
    } else {
        let shown = display(items[k as int], dishes);
        let next = display_items(items, (k + 1) as nat, dishes);
        lemma_display_prefix(items, (k + 1) as nat, n, dishes);
        assert(inner.take(next.len() as int) == next);
        // Where the item starts: behind a space, unless it is the first.
        let from: int = if k == 0 {
            here
        } else {
            here + 1
        };
        if k > 0 {
            assert(next == display_items(items, k, dishes) + " "@ + shown);
            assert(next[here - start] == ' ');
            assert(inner[here - start] == inner.take(next.len() as int)[here - start]);
            assert(s[here] == block[here - start]);
            assert(s[here] == ' ');
            assert(tokens_from(s, here) == tokens_from(s, here + 1));
        } else {
            assert(display_items(items, 0, dishes) =~= Seq::<char>::empty());
            assert(next == shown);
        }
        assert(from + shown.len() == start + next.len());
        assert(s.subrange(from, from + shown.len()) =~= shown) by {
            assert forall|j: int| 0 <= j < shown.len() implies s[from + j] == shown[j] by {
                let at = from - start + j;
                assert(s[from + j] == block[at]);
                assert(inner[at] == inner.take(next.len() as int)[at]);
                assert(next[at] == shown[j]);
            }
        }
        // What stands behind the item: a space before the next one, or the
        // closing parenthesis.
        if k + 1 < n {
            let after = display_items(items, (k + 2) as nat, dishes);
            lemma_display_prefix(items, (k + 2) as nat, n, dishes);
            assert(after == next + " "@ + display(items[k as int + 1], dishes));
            assert(after[next.len() as int] == ' ');
            assert(inner[next.len() as int] == inner.take(after.len() as int)[next.len() as int]);
            assert(s[start + next.len()] == block[next.len() as int]);
        } else {
            assert(next == inner);
        }
        lemma_tokens_of_shown(items[k as int], s, from, dishes);
        lemma_tokens_of_items(items, (k + 1) as nat, s, start, dishes);
        lemma_written_range_first(items, k as int, n as int);
        let first = written(items[k as int]);
        let more = written_range(items, k as int + 1, n as int);
        match behind {
            Ok(rest) => {
                assert(first + ((more + seq![")"@]) + rest) =~= ((first + more) + seq![")"@])
                    + rest);
            },
            Err(_) => {},
        }
    }
}

/// Plain data is shown as text that reads as the same data: whatever the
/// store holds, reading what was shown gives the data back and leaves the
/// store as it was.
pub proof fn lemma_read_shown(e: ExprV, dishes: Seq<DishV>)
    requires
        is_plain(e),
    ensures
        parse_text(display(e, dishes), dishes) == Ok::<(ExprV, Seq<DishV>), ErrorV>((e, dishes)),
{
    let s = display(e, dishes);
    assert(s.subrange(0, s.len() as int) =~= s);
    lemma_tokens_of_shown(e, s, 0, dishes);
    assert(tokens_from(s, s.len() as int) == Ok::<Seq<Seq<char>>, ErrorV>(Seq::empty()));
    let toks = written(e);
    assert(toks + Seq::<Seq<char>>::empty() =~= toks);
    assert(tokens(s) == Ok::<Seq<Seq<char>>, ErrorV>(toks));
    assert(toks.subrange(0, toks.len() as int) =~= toks);
    lemma_parse_written(e, toks, 0, dishes);
}

/// A canonical text is shown as it was read: where a text is what plain
/// data is shown as, reading it and showing what was read gives the text
/// again.
pub proof fn lemma_shown_as_read(e: ExprV, dishes: Seq<DishV>)
    requires
        is_plain(e),
    ensures
        parse_text(display(e, dishes), dishes) is Ok,
        display(
            parse_text(display(e, dishes), dishes)->Ok_0.0,
            parse_text(display(e, dishes), dishes)->Ok_0.1,
        ) == display(e, dishes),
{
    lemma_read_shown(e, dishes);
}


/// The first `c` at or behind `i` stands where no `c` stands before it.
pub proof fn lemma_find_from(s: Seq<char>, c: char, i: int, j: int)
    requires
        0 <= i <= j <= s.len(),
        forall|k: int| i <= k < j ==> s[k] != c,
        j == s.len() || s[j] == c,
    ensures
        crate::lisp::parser::find_from(s, c, i) == j,
    decreases j - i,
{
    if i < j {
        lemma_find_from(s, c, i + 1, j);
    }
}

/// A string literal reads as its text, and is shown as its text without
/// the quotes.
pub proof fn lemma_string_literal(text: Seq<char>, dishes: Seq<DishV>)
    requires
        forall|i: int| 0 <= i < text.len() ==> text[i] != '"',
    ensures
        parse_text(seq!['"'] + text + seq!['"'], dishes) == Ok::<(ExprV, Seq<DishV>), ErrorV>(
            (ExprV::Str(text), dishes),
        ),
        display(ExprV::Str(text), dishes) == text,
{
    lemma_token_texts();
    let s = seq!['"'] + text + seq!['"'];
    let n = s.len() as int;
    assert(n == text.len() + 2);
    assert(s[0] == '"' && s[n - 1] == '"');
    assert forall|k: int| 1 <= k < n - 1 implies s[k] != '"' by {
        assert(s[k] == text[k - 1]);
    }
    lemma_find_from(s, '"', 1, n - 1);
    assert(crate::lisp::parser::token_end(s, 0) == Ok::<int, ErrorV>(n));
    assert(!crate::text::is_whitespace(s[0]));
    assert(tokens_from(s, n) == Ok::<Seq<Seq<char>>, ErrorV>(Seq::empty()));
    assert(s.subrange(0, n) =~= s);
    assert(seq![s] + Seq::<Seq<char>>::empty() =~= seq![s]);
    assert(tokens(s) == Ok::<Seq<Seq<char>>, ErrorV>(seq![s]));
    assert(s.subrange(1, n - 1) =~= text);
    assert(s[0] != "("@[0] && s[0] != ")"@[0] && s[0] != "'"@[0]);
    assert(s[0] != "true"@[0] && s[0] != "false"@[0]);
    assert(atom(s) == Ok::<AtomV, ErrorV>(AtomV::Plain(ExprV::Str(text))));
}


// ---------------------------------------------------------------------------
// What the reader gives
// ---------------------------------------------------------------------------
/// Data by its shape: a symbol, a number, a boolean, or a list of data.
pub open spec fn is_data(e: ExprV) -> bool
    decreases e,
{
    match e {
        ExprV::Symbol(_) => true,
        ExprV::Number(_) => true,
        ExprV::Bool(_) => true,
        ExprV::List(items) => forall|i: int| 0 <= i < items.len() ==> is_data(#[trigger] items[i]),
        _ => false,
    }
}

/// Whether a token is a string with its quotes.
pub open spec fn is_string_token(t: Seq<char>) -> bool {
    t.len() >= 2 && t[0] == '"' && t[t.len() - 1] == '"'
}

/// Whether a token is a byte list with its brackets.
pub open spec fn is_bytes_token(t: Seq<char>) -> bool {
    t.len() >= 2 && t[0] == '[' && t[t.len() - 1] == ']'
}

/// Whether a token is a dish literal: a `d` before a string or a byte
/// list.
pub open spec fn is_dish_token(t: Seq<char>) -> bool {
    t.len() >= 3 && t[0] == 'd' && ((t[1] == '"' && t[t.len() - 1] == '"') || (t[1] == '['
        && t[t.len() - 1] == ']'))
}

/// Whether a token is of one of the shapes that the tokenizer gives.
pub open spec fn is_token(t: Seq<char>) -> bool {
    ||| t == "("@
    ||| t == ")"@
    ||| t == "'"@
    ||| is_string_token(t)
    ||| is_bytes_token(t)
    ||| is_dish_token(t)
    ||| is_word(t)
}

/// Where a search ends: at the character that was looked for, or at the
/// end of the text.
pub proof fn lemma_find_from_found(s: Seq<char>, c: char, i: int)
    requires
        0 <= i <= s.len(),
    ensures
        i <= crate::lisp::parser::find_from(s, c, i) <= s.len(),
        crate::lisp::parser::find_from(s, c, i) < s.len() ==> s[crate::lisp::parser::find_from(
            s,
            c,
            i,
        )] == c,
    decreases s.len() - i,
{
    if i < s.len() && s[i] != c {
        lemma_find_from_found(s, c, i + 1);
    }
}

/// A run holds no delimiter.
pub proof fn lemma_run_holds_no_delimiter(s: Seq<char>, i: int)
    requires
        0 <= i <= s.len(),
    ensures
        i <= crate::lisp::parser::run_end(s, i) <= s.len(),
        forall|k: int|
            i <= k < crate::lisp::parser::run_end(s, i) ==> !is_delimiter(#[trigger] s[k]),
    decreases s.len() - i,
{
    if i < s.len() && !is_delimiter(s[i]) {
        lemma_run_holds_no_delimiter(s, i + 1);
    }
}

/// Every token that the tokenizer gives is of one of its shapes.
pub proof fn lemma_tokens_are_tokens(s: Seq<char>, i: int)
    requires
        0 <= i,
        tokens_from(s, i) is Ok,
    ensures
        forall|k: int|
            0 <= k < tokens_from(s, i)->Ok_0.len() ==> is_token(
                #[trigger] tokens_from(s, i)->Ok_0[k],
            ),
    decreases s.len() - i,
{
    lemma_token_texts();
    if i >= s.len() {
    } else if crate::text::is_whitespace(s[i]) {
        lemma_tokens_are_tokens(s, i + 1);
    } else {
        let c = s[i];
        let end = crate::lisp::parser::token_end(s, i);
        match end {
            Err(_) => {},
            Ok(j) => {
                if i < j <= s.len() {
                    lemma_tokens_are_tokens(s, j);
                    let t = s.subrange(i, j);
                    let rest = tokens_from(s, j)->Ok_0;
                    let all = tokens_from(s, i)->Ok_0;
                    assert(all == seq![t] + rest);
                    assert(is_token(t)) by {
                        if c == '(' || c == ')' || c == '\'' {
                            assert(t =~= seq![c]);
                        } else if c == '"' {
                            lemma_find_from_found(s, '"', i + 1);
                            assert(t[t.len() - 1] == s[j - 1]);
                        } else if c == '[' {
                            lemma_find_from_found(s, ']', i + 1);
                            assert(t[t.len() - 1] == s[j - 1]);
                        } else if c == 'd' && i + 1 < s.len() && s[i + 1] == '"' {
                            lemma_find_from_found(s, '"', i + 2);
                            assert(t[t.len() - 1] == s[j - 1]);
                            assert(t[1] == s[i + 1]);
                        } else if c == 'd' && i + 1 < s.len() && s[i + 1] == '[' {
                            lemma_find_from_found(s, ']', i + 2);
                            assert(t[t.len() - 1] == s[j - 1]);
                            assert(t[1] == s[i + 1]);
                        } else {
                            lemma_run_holds_no_delimiter(s, i + 1);
                            assert(!is_delimiter(c));
                            assert forall|k: int| 0 <= k < t.len() implies !is_delimiter(
                                #[trigger] t[k],
                            ) by {
                                assert(t[k] == s[i + k]);
                            }
                        }
                    }
                    assert forall|k: int| 0 <= k < all.len() implies is_token(#[trigger] all[k]) by {
                        if k > 0 {
                            assert(all[k] == rest[k - 1]);
                        }
                    }
                }
            },
        }
    }
}

/// `quote` is a symbol as the reader gives it.
pub proof fn lemma_quote_is_plain()
    ensures
        is_plain_symbol("quote"@),
{
    lemma_token_texts();
    reveal_strlit("quote");
    let q = "quote"@;
    assert(q =~= seq!['q', 'u', 'o', 't', 'e']);
    let parts = crate::number::literal_parts(q);
    assert(q[0] == 'q');
    assert(!parts.negative);
    crate::number::lemma_point_position(q, 0);
    assert(parts.whole == q.take(crate::number::point_position(q)));
    if parts.whole.len() > 0 {
        assert(parts.whole[0] == q[0]);
        assert(!is_decimal_digit(parts.whole[0]));
    }
    assert(!crate::number::is_digit_run(parts.whole));
}

/// What an atom of the tokenizer stands for is, where it is data by its
/// shape, plain data.
pub proof fn lemma_atom_gives_plain(t: Seq<char>)
    requires
        is_token(t),
        t != "("@,
        t != ")"@,
        t != "'"@,
    ensures
        atom(t) matches Ok(AtomV::Plain(e)) ==> (is_data(e) ==> is_plain(e)),
{
    lemma_token_texts();
    let n = t.len() as int;
    if t == "true"@ || t == "false"@ {
    } else if is_string_token(t) {
    } else if n >= 3 && t[0] == 'd' && t[1] == '"' && t[n - 1] == '"' {
    } else if n >= 3 && t[0] == 'd' && t[1] == '[' && t[n - 1] == ']' {
    } else if is_bytes_token(t) {
        match crate::lisp::parser::byte_list(t.subrange(1, n - 1)) {
            Ok(bytes) => {
                let items = Seq::new(bytes.len(), |i: int| crate::lisp::parser::byte_number(bytes[i]));
                assert forall|i: int| 0 <= i < items.len() implies is_plain(#[trigger] items[i]) by {
                    crate::number::lemma_numeral_canonical(false, bytes[i] as nat, 0);
                }
            },
            Err(_) => {},
        }
    } else if is_number_literal(t) {
        crate::number::lemma_literal_round_trip(t);
    } else if is_symbol(t) {
        assert(!is_dish_token(t));
        assert(is_word(t));
    }
}

/// What the parser makes of the tokenizer's tokens is, where it is data by
/// its shape, plain data.
pub proof fn lemma_parse_gives_plain(toks: Seq<Seq<char>>, pos: int, dishes: Seq<DishV>)
    requires
        forall|k: int| 0 <= k < toks.len() ==> is_token(#[trigger] toks[k]),
    ensures
        parse_at(toks, pos, dishes) matches Ok(p) ==> (is_data(p.expr) ==> is_plain(p.expr)),
    decreases toks.len() - pos, 0nat,
{
    if pos < 0 || pos >= toks.len() {
    } else if toks[pos] == "("@ {
        lemma_parse_list_gives_plain(toks, pos + 1, dishes, Seq::empty());
    } else if toks[pos] == ")"@ {
    } else if toks[pos] == "'"@ {
        lemma_parse_gives_plain(toks, pos + 1, dishes);
        match parse_at(toks, pos + 1, dishes) {
            Ok(p) => {
                let whole = crate::lisp::parser::quoted(p.expr);
                if is_data(whole) {
                    let items = whole->List_0;
                    assert(items[1] == p.expr);
                    assert(is_data(items[1]));
                    lemma_quote_is_plain();
                    assert forall|i: int| 0 <= i < items.len() implies is_plain(
                        #[trigger] items[i],
                    ) by {
                        if i == 0 {
                            assert(items[0] == ExprV::Symbol("quote"@));
                        }
                    }
                }
            },
            Err(_) => {},
        }
    } else {
        lemma_atom_gives_plain(toks[pos]);
    }
}

/// What the parser makes of the rest of a list is plain data where it is
/// data by its shape, given that the items before are.
pub proof fn lemma_parse_list_gives_plain(
    toks: Seq<Seq<char>>,
    pos: int,
    dishes: Seq<DishV>,
    items: Seq<ExprV>,
)
    requires
        forall|k: int| 0 <= k < toks.len() ==> is_token(#[trigger] toks[k]),
        forall|i: int| 0 <= i < items.len() ==> (is_data(#[trigger] items[i]) ==> is_plain(items[i])),
    ensures
        parse_list(toks, pos, dishes, items) matches Ok(p) ==> (is_data(p.expr) ==> is_plain(
            p.expr,
        )),
    decreases toks.len() - pos, 1nat,
{
    if pos < 0 || pos >= toks.len() {
    } else if toks[pos] == ")"@ {
        let whole = ExprV::List(items);
        assert(parse_list(toks, pos, dishes, items)->Ok_0.expr == whole);
        if is_data(whole) {
            assert(whole->List_0 == items);
            assert(forall|i: int| 0 <= i < items.len() ==> is_data(#[trigger] items[i]));
            assert(is_plain(whole));
        }
    } else {
        lemma_parse_gives_plain(toks, pos, dishes);
        match parse_at(toks, pos, dishes) {
            Ok(p) => {
                if pos < p.next <= toks.len() {
                    let longer = items.push(p.expr);
                    assert forall|i: int| 0 <= i < longer.len() && is_data(
                        #[trigger] longer[i],
                    ) implies is_plain(longer[i]) by {
                        if i < items.len() {
                            assert(longer[i] == items[i]);
                        }
                    }
                    lemma_parse_list_gives_plain(toks, p.next, p.dishes, longer);
                }
            },
            Err(_) => {},
        }
    }
}

/// What is read from a text is, where it is data by its shape, plain
/// data: its symbols hold no delimiter, and its numbers are canonical.
pub proof fn lemma_reader_gives_plain(t: Seq<char>, dishes: Seq<DishV>)
    requires
        parse_text(t, dishes) is Ok,
        is_data(parse_text(t, dishes)->Ok_0.0),
    ensures
        is_plain(parse_text(t, dishes)->Ok_0.0),
{
    lemma_tokens_are_tokens(t, 0);
    let toks = tokens(t)->Ok_0;
    lemma_parse_gives_plain(toks, 0, dishes);
}

/// What is read from a text and shown again is an equivalent text: where
/// a text, however its blanks are set and its numbers written, reads as
/// symbols, numbers, booleans and lists of these, what is shown of that
/// reads as the same again.
pub proof fn lemma_equivalent_text(t: Seq<char>, dishes: Seq<DishV>)
    requires
        parse_text(t, dishes) is Ok,
        is_data(parse_text(t, dishes)->Ok_0.0),
    ensures
        ({
            let (e, d) = parse_text(t, dishes)->Ok_0;
            parse_text(display(e, d), d) == Ok::<(ExprV, Seq<DishV>), ErrorV>((e, d))
        }),
{
    lemma_reader_gives_plain(t, dishes);
    let (e, d) = parse_text(t, dishes)->Ok_0;
    lemma_read_shown(e, d);
}

} // verus!
