//! The texts of queries that the engine takes without a panic.
//!
//! The engine panics on two things. One is a name with a namespace prefix,
//! because the context it is given knows no prefix; in the text, a prefix
//! is parted from its name by a single colon. The other is a call of the
//! function `name`, which panics on an attribute that has no element. Both
//! are harmless inside a string literal.
//!
//! The engine reads a call of a function as a name directly before a left
//! parenthesis. A name starts with a letter or an underscore and goes on
//! with letters, digits, underscores, hyphens and full stops, as far as they
//! reach; but where an operator name is expected, the engine takes `and`,
//! `or`, `mod` or `div` from the front of such a run first.

use vstd::prelude::*;
use vstd::std_specs::iter::IteratorSpec;

verus! {

/// Whether `c` opens or closes a string literal.
pub open spec fn is_quote(c: char) -> bool {
    c == '\'' || c == '"'
}

/// The quote of the string literal that is open after the first `n`
/// characters, if one is: a quote opens a literal and the next quote of the
/// same kind closes it.
pub open spec fn open_quote(expr: Seq<char>, n: int) -> Option<char>
    decreases n,
{
    if n <= 0 {
        None
    } else {
        match open_quote(expr, n - 1) {
            Some(quote) => if expr[n - 1] == quote {
                None
            } else {
                Some(quote)
            },
            None => if is_quote(expr[n - 1]) {
                Some(expr[n - 1])
            } else {
                None
            },
        }
    }
}

/// Whether a colon stands alone at `i`: with no colon before it and none
/// after it. Such a colon parts a namespace prefix from a name.
pub open spec fn lone_colon(expr: Seq<char>, i: int) -> bool {
    &&& expr[i] == ':'
    &&& !(i > 0 && expr[i - 1] == ':')
    &&& !(i + 1 < expr.len() && expr[i + 1] == ':')
}

/// Whether a name can start with `c`.
pub open spec fn is_name_start(c: char) -> bool {
    ('a' <= c <= 'z') || ('A' <= c <= 'Z') || c == '_'
}

/// Whether a name can go on with `c`.
pub open spec fn is_name_part(c: char) -> bool {
    is_name_start(c) || ('0' <= c <= '9') || c == '-' || c == '.'
}

/// How many characters that a name can go on with stand directly before
/// position `p`.
pub open spec fn run_len(expr: Seq<char>, p: int) -> int
    decreases p,
{
    if p > 0 && is_name_part(expr[p - 1]) {
        run_len(expr, p - 1) + 1
    } else {
        0
    }
}

/// Whether the four letters of `name` stand directly before position `p`.
pub open spec fn ends_in_name(expr: Seq<char>, p: int) -> bool {
    &&& p >= 4
    &&& expr[p - 4] == 'n'
    &&& expr[p - 3] == 'a'
    &&& expr[p - 2] == 'm'
    &&& expr[p - 1] == 'e'
}

/// Whether the run of `len` characters from `at` starts with the name of an
/// operator.
pub open spec fn starts_with_operator(expr: Seq<char>, at: int, len: int) -> bool {
    ||| len >= 2 && expr[at] == 'o' && expr[at + 1] == 'r'
    ||| len >= 3 && expr[at] == 'a' && expr[at + 1] == 'n' && expr[at + 2] == 'd'
    ||| len >= 3 && expr[at] == 'm' && expr[at + 1] == 'o' && expr[at + 2] == 'd'
    ||| len >= 3 && expr[at] == 'd' && expr[at + 1] == 'i' && expr[at + 2] == 'v'
}

/// Whether the left parenthesis at `p` may be read as a call of the function
/// `name`. It follows the letters `name`, and the run of name characters
/// that they end is not one longer name: it is those four letters alone, or
/// it starts with something that no name starts with, or with the name of an
/// operator.
pub open spec fn calls_name(expr: Seq<char>, p: int) -> bool {
    &&& expr[p] == '('
    &&& ends_in_name(expr, p)
    &&& {
        let len = run_len(expr, p);
        ||| len == 4
        ||| !is_name_start(expr[p - len])
        ||| starts_with_operator(expr, p - len, len)
    }
}

/// Whether the text of a query can be handed to the engine: outside its
/// string literals no colon stands alone, and no left parenthesis may be
/// read as a call of the function `name`.
pub open spec fn supported_query(expr: Seq<char>) -> bool {
    forall|i: int|
        0 <= i < expr.len() && open_quote(expr, i) is None ==> !lone_colon(expr, i) && !calls_name(
            expr,
            i,
        )
}

/// A text without a colon and without a left parenthesis can be handed to
/// the engine.
pub proof fn lemma_plain_text_is_supported(expr: Seq<char>)
    requires
        forall|i: int| 0 <= i < expr.len() ==> expr[i] != ':' && expr[i] != '(',
    ensures
        supported_query(expr),
{
}

/// Tells whether `c` is a letter or an underscore: what a name starts with.
fn starts_name(c: char) -> (yes: bool)
    ensures
        yes == is_name_start(c),
{
    ('a' <= c && c <= 'z') || ('A' <= c && c <= 'Z') || c == '_'
}

/// Tells whether a name can go on with `c`.
fn continues_name(c: char) -> (yes: bool)
    ensures
        yes == is_name_part(c),
{
    starts_name(c) || ('0' <= c && c <= '9') || c == '-' || c == '.'
}

/// The characters of a text read so far, as far as the test of a query
/// needs them.
struct Scan {
    /// The quote of the literal that is open, if one is.
    quote: Option<char>,
    /// Whether the last character is a colon outside a literal with no
    /// colon before it.
    colon: bool,
    /// The length of the run of name characters that ends here, up to 5.
    run: u8,
    /// The first three characters of that run, as far as it reaches.
    first: char,
    second: char,
    third: char,
    /// The last four characters read, the last one first.
    last: [char; 4],
}

/// Whether `scan` is what reading the first `n` characters of `expr` leaves.
spec fn scanned(scan: Scan, expr: Seq<char>, n: int) -> bool {
    let len = run_len(expr, n);
    &&& 0 <= n <= expr.len()
    &&& scan.quote == open_quote(expr, n)
    &&& scan.colon == (n >= 1 && expr[n - 1] == ':' && open_quote(expr, n - 1) is None && !(n >= 2
        && expr[n - 2] == ':'))
    &&& 0 <= len <= n
    &&& scan.run == (if len < 5 {
        len
    } else {
        5
    })
    &&& (len >= 1 ==> scan.first == expr[n - len])
    &&& (len >= 2 ==> scan.second == expr[n - len + 1])
    &&& (len >= 3 ==> scan.third == expr[n - len + 2])
    &&& (n == 0 ==> scan.last[0] != ':')
    &&& (n >= 1 ==> scan.last[0] == expr[n - 1])
    &&& (n >= 2 ==> scan.last[1] == expr[n - 2])
    &&& (n >= 3 ==> scan.last[2] == expr[n - 3])
    &&& (n >= 4 ==> scan.last[3] == expr[n - 4])
}

/// Tells whether the text of a query can be handed to the engine.
pub fn is_supported_query(expr: &str) -> (ok: bool)
    ensures
        ok == supported_query(expr@),
{
    broadcast use vstd::string::group_string_axioms;

    let mut chars = expr.chars();
    let ghost mut n: int = 0;
    let mut scan = Scan {
        quote: None,
        colon: false,
        run: 0,
        first: ' ',
        second: ' ',
        third: ' ',
        last: [' ', ' ', ' ', ' '],
    };
    loop
        invariant
            chars.obeys_prophetic_iter_laws(),
            chars.decrease() is Some,
            0 <= n <= expr@.len(),
            chars.remaining() == expr@.subrange(n, expr@.len() as int),
            scanned(scan, expr@, n),
            forall|i: int|
                0 <= i < n - 1 && open_quote(expr@, i) is None ==> !lone_colon(expr@, i),
            forall|i: int| 0 <= i < n && open_quote(expr@, i) is None ==> !calls_name(expr@, i),
        decreases chars.decrease()->0,
    {
        let ghost before = chars;
        match chars.next() {
            None => {
                proof {
                    assert(n == expr@.len());
                    if scan.colon {
                        assert(lone_colon(expr@, n - 1));
                    } else {
                        assert forall|i: int|
                            0 <= i < expr@.len() && open_quote(expr@, i) is None implies !lone_colon(
                            expr@,
                            i,
                        ) && !calls_name(expr@, i) by {}
                    }
                }
                return !scan.colon;
            },
            Some(c) => {
                proof {
                    assert(before.remaining()[0] == expr@[n]);
                    assert(chars.remaining() =~= expr@.subrange(n + 1, expr@.len() as int));
                }
                if scan.colon && c != ':' {
                    proof {
                        assert(lone_colon(expr@, n - 1));
                    }
                    return false;
                }
                let outside = scan.quote.is_none();
                if outside && c == '(' && scan.last[0] == 'e' && scan.last[1] == 'm' && scan.last[2]
                    == 'a' && scan.last[3] == 'n' && scan.run >= 4 {
                    let alone = scan.run == 4;
                    let operator = (scan.first == 'o' && scan.second == 'r') || (scan.first == 'a'
                        && scan.second == 'n' && scan.third == 'd') || (scan.first == 'm'
                        && scan.second == 'o' && scan.third == 'd') || (scan.first == 'd'
                        && scan.second == 'i' && scan.third == 'v');
                    if alone || !starts_name(scan.first) || operator {
                        proof {
                            assert(calls_name(expr@, n));
                        }
                        return false;
                    }
                }
                proof {
                    lemma_name_has_run(expr@, n);
                    assert(open_quote(expr@, n) is None ==> !calls_name(expr@, n));
                    if n >= 1 {
                        assert(open_quote(expr@, n - 1) is None ==> !lone_colon(expr@, n - 1));
                    }
                }
                let part = continues_name(c);
                let next_quote = match scan.quote {
                    Some(quote) => if c == quote {
                        None
                    } else {
                        Some(quote)
                    },
                    None => if c == '\'' || c == '"' {
                        Some(c)
                    } else {
                        None
                    },
                };
                let next_colon = c == ':' && outside && scan.last[0] != ':';
                let ghost was = scan;
                scan =
                Scan {
                    quote: next_quote,
                    colon: next_colon,
                    run: if !part {
                        0
                    } else if scan.run < 5 {
                        scan.run + 1
                    } else {
                        5
                    },
                    first: if part && scan.run == 0 {
                        c
                    } else {
                        scan.first
                    },
                    second: if part && scan.run == 1 {
                        c
                    } else {
                        scan.second
                    },
                    third: if part && scan.run == 2 {
                        c
                    } else {
                        scan.third
                    },
                    last: [c, scan.last[0], scan.last[1], scan.last[2]],
                };
                proof {
                    n = n + 1;
                    assert(scanned(scan, expr@, n));
                }
            },
        }
    }
}

/// The letters `name` are name characters, so a run that ends in them has
/// four characters at least.
proof fn lemma_name_has_run(expr: Seq<char>, p: int)
    requires
        0 <= p <= expr.len(),
    ensures
        0 <= run_len(expr, p) <= p,
        ends_in_name(expr, p) ==> run_len(expr, p) >= 4,
    decreases p,
{
    if p > 0 {
        lemma_name_has_run(expr, p - 1);
        if p > 1 {
            lemma_name_has_run(expr, p - 2);
        }
        if p > 2 {
            lemma_name_has_run(expr, p - 3);
        }
        if p > 3 {
            lemma_name_has_run(expr, p - 4);
        }
    }
}

} // verus!
