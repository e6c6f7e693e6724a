//! The tagged annotation value and the value-type inference parser:
//! a directive's raw text is read as a bracketed list, as a boolean
//! literal, or as an atom, in that fixed priority order.

use vstd::prelude::*;

use crate::text::{split_and_trim, split_trim_spec, str_eq};

verus! {

/// A value specified by an annotation: an ordered list of text items,
/// an optional-text atom, or a boolean.
#[derive(Debug, Clone)]
pub enum AnnotationValue {
    List(Vec<String>),
    Atom(Option<String>),
    Bool(bool),
}

/// The mathematical shape of an [`AnnotationValue`].
pub enum ValueView {
    List(Seq<Seq<char>>),
    Atom(Option<Seq<char>>),
    Bool(bool),
}

impl View for AnnotationValue {
    type V = ValueView;

    open spec fn view(&self) -> ValueView {
        match self {
            AnnotationValue::List(items) => ValueView::List(items.deep_view()),
            AnnotationValue::Atom(text) => ValueView::Atom(text.deep_view()),
            AnnotationValue::Bool(b) => ValueView::Bool(*b),
        }
    }
}

pub open spec fn true_chars() -> Seq<char> {
    seq!['t', 'r', 'u', 'e']
}

pub open spec fn false_chars() -> Seq<char> {
    seq!['f', 'a', 'l', 's', 'e']
}

/// What `str::parse::<bool>` accepts: exactly the literals `true` and `false`.
pub open spec fn bool_lit_spec(s: Seq<char>) -> Option<bool> {
    if s == true_chars() {
        Some(true)
    } else if s == false_chars() {
        Some(false)
    } else {
        None
    }
}

/// A bracketed list `[a, b, c]`: at least two characters, the first `[`
/// and the last `]`; the interior is split lexically on `,` with each
/// segment trimmed. Nothing else is a list.
pub open spec fn parse_list_spec(s: Seq<char>) -> Option<Seq<Seq<char>>> {
    if s.len() >= 2 && s[0] == '[' && s[s.len() - 1] == ']' {
        Some(split_trim_spec(s.subrange(1, s.len() - 1), ','))
    } else {
        None
    }
}

/// Value inference on raw directive text, in fixed priority order:
/// list, then boolean literal, then atom (empty text means an absent atom).
pub open spec fn infer_value_spec(s: Seq<char>) -> ValueView {
    match parse_list_spec(s) {
        Some(items) => ValueView::List(items),
        None => match bool_lit_spec(s) {
            Some(b) => ValueView::Bool(b),
            None => if s.len() == 0 {
                ValueView::Atom(None)
            } else {
                ValueView::Atom(Some(s))
            },
        },
    }
}

/// Parses lists like `[x, y, z]`; anything not bracketed is no list.
pub fn parse_list(list: &str) -> (r: Option<Vec<String>>)
    ensures
        match r {
            Some(items) => parse_list_spec(list@) == Some(items.deep_view()),
            None => parse_list_spec(list@) is None,
        },
{
    let n = list.unicode_len();
    if n >= 2 && list.get_char(0) == '[' && list.get_char(n - 1) == ']' {
        let interior = list.substring_char(1, n - 1);
        Some(split_and_trim(interior, ','))
    } else {
        None
    }
}

/// Reads the boolean literals `true` and `false`, as `str::parse::<bool>` does.
pub fn parse_bool_lit(s: &str) -> (r: Option<bool>)
    ensures
        r == bool_lit_spec(s@),
{
    proof {
        reveal_strlit("true");
        reveal_strlit("false");
        assert("true"@ =~= true_chars());
        assert("false"@ =~= false_chars());
    }
    if str_eq(s, "true") {
        Some(true)
    } else if str_eq(s, "false") {
        Some(false)
    } else {
        None
    }
}

/// Infers the typed value of raw directive text.
pub fn infer_value(text: &str) -> (r: AnnotationValue)
    ensures
        r@ == infer_value_spec(text@),
{
    match parse_list(text) {
        Some(items) => AnnotationValue::List(items),
        None => match parse_bool_lit(text) {
            Some(b) => AnnotationValue::Bool(b),
            None => if text.unicode_len() == 0 {
                AnnotationValue::Atom(None)
            } else {
                AnnotationValue::Atom(Some(text.to_owned()))
            },
        },
    }
}

/// A caller type an atom's text can be converted to, with a default for
/// atoms that carry no text.
pub trait AtomParseable: Sized {
    /// The value an absent atom text stands for.
    spec fn default_spec() -> Self;

    /// Whether the text converts to a value of this type.
    spec fn parses(s: Seq<char>) -> bool;

    /// The value the text converts to, meaningful when `parses` holds.
    spec fn parse_spec(s: Seq<char>) -> Self;

    /// Attempts the conversion.
    fn parse_text(s: &str) -> (r: Option<Self>)
        ensures
            match r {
                Some(v) => Self::parses(s@) && v == Self::parse_spec(s@),
                None => !Self::parses(s@),
            },
    ;

    /// The default value, for atoms without text.
    fn default_value() -> (r: Self)
        ensures
            r == Self::default_spec(),
    ;
}

impl AtomParseable for bool {
    open spec fn default_spec() -> bool {
        false
    }

    open spec fn parses(s: Seq<char>) -> bool {
        bool_lit_spec(s) is Some
    }

    open spec fn parse_spec(s: Seq<char>) -> bool {
        match bool_lit_spec(s) {
            Some(b) => b,
            None => false,
        }
    }

    fn parse_text(s: &str) -> (r: Option<bool>) {
        parse_bool_lit(s)
    }

    fn default_value() -> (r: bool) {
        false
    }
}

pub open spec fn is_digit_char(c: char) -> bool {
    0x30 <= c as u32 <= 0x39
}

pub open spec fn digit_val(c: char) -> nat {
    (c as u32 - 0x30) as nat
}

/// The number a digit string denotes, most significant digit first.
pub open spec fn digits_val(s: Seq<char>) -> nat
    decreases s.len(),
{
    if s.len() == 0 {
        0
    } else {
        digits_val(s.drop_last()) * 10 + digit_val(s.last())
    }
}

pub open spec fn all_digits(s: Seq<char>) -> bool {
    forall|i: int| 0 <= i < s.len() ==> is_digit_char(s[i])
}

/// The digit part of a decimal string: an optional leading `+` is allowed,
/// as `u64::from_str` allows one.
pub open spec fn u64_digits(s: Seq<char>) -> Seq<char> {
    if s.len() > 0 && s[0] == '+' {
        s.drop_first()
    } else {
        s
    }
}

/// What `str::parse::<u64>` accepts: a non-empty digit string after the
/// optional sign, whose value fits in the type.
pub open spec fn u64_parses(s: Seq<char>) -> bool {
    let d = u64_digits(s);
    d.len() > 0 && all_digits(d) && digits_val(d) <= u64::MAX
}

/// Extending a digit string never shrinks its value.
proof fn lemma_digits_val_prefix(s: Seq<char>, i: int)
    requires
        0 <= i <= s.len(),
    ensures
        digits_val(s) >= digits_val(s.take(i)),
    decreases s.len() - i,
{
    if i < s.len() {
        lemma_digits_val_prefix(s, i + 1);
        assert(s.take(i + 1).drop_last() =~= s.take(i));
        assert(digits_val(s.take(i + 1)) == digits_val(s.take(i)) * 10 + digit_val(s.take(i + 1).last()));
        assert(digits_val(s.take(i)) * 10 >= digits_val(s.take(i)));
    } else {
        assert(s.take(i) =~= s);
    }
}

impl AtomParseable for u64 {
    open spec fn default_spec() -> u64 {
        0
    }

    open spec fn parses(s: Seq<char>) -> bool {
        u64_parses(s)
    }

    open spec fn parse_spec(s: Seq<char>) -> u64 {
        digits_val(u64_digits(s)) as u64
    }

    fn parse_text(s: &str) -> (r: Option<u64>) {
        let n = s.unicode_len();
        let mut start: usize = 0;
        if n > 0 && s.get_char(0) == '+' {
            start = 1;
        }
        let ghost d = u64_digits(s@);
        proof {
            assert(d =~= s@.skip(start as int));
        }
        if start == n {
            return None;
        }
        let mut acc: u64 = 0;
        let mut i: usize = start;
        while i < n
            invariant
                start <= i <= n,
                n == s@.len(),
                d == s@.skip(start as int),
                d == u64_digits(s@),
                d.len() == n - start,
                all_digits(s@.subrange(start as int, i as int)),
                acc as nat == digits_val(s@.subrange(start as int, i as int)),
            decreases n - i,
        {
            let c = s.get_char(i);
            let u = c as u32;
            if !(0x30 <= u && u <= 0x39) {
                proof {
                    assert(d[i - start] == s@[i as int]);
                    assert(!is_digit_char(d[i - start]));
                }
                return None;
            }
            let dv = (u - 0x30) as u64;
            let ghost prefix = s@.subrange(start as int, i as int);
            let ghost extended = s@.subrange(start as int, i as int + 1);
            proof {
                assert(extended.drop_last() =~= prefix);
                assert(extended.last() == s@[i as int]);
                assert(digits_val(extended) == digits_val(prefix) * 10 + digit_val(s@[i as int]));
            }
            let q = (u64::MAX - dv) / 10;
            if acc > q {
                proof {
                    let m = u64::MAX as nat;
                    assert((m - dv) == (q as nat) * 10 + ((u64::MAX - dv) as nat % 10)) by {
                        vstd::arithmetic::div_mod::lemma_fundamental_div_mod(
                            (u64::MAX - dv) as int,
                            10,
                        );
                    }
                    assert(acc as nat >= q as nat + 1);
                    assert(acc as nat * 10 >= (q as nat + 1) * 10) by (nonlinear_arith)
                        requires
                            acc as nat >= q as nat + 1,
                    ;
                    assert(digits_val(extended) > m);
                    assert(extended =~= d.take(i - start + 1));
                    lemma_digits_val_prefix(d, i - start + 1);
                    assert(digits_val(d) > m);
                }
                return None;
            }
            proof {
                let m = u64::MAX as nat;
                assert((m - dv) == (q as nat) * 10 + ((u64::MAX - dv) as nat % 10)) by {
                    vstd::arithmetic::div_mod::lemma_fundamental_div_mod((u64::MAX - dv) as int, 10);
                }
                assert(acc as nat * 10 <= q as nat * 10) by (nonlinear_arith)
                    requires
                        acc as nat <= q as nat,
                ;
                assert(acc as nat * 10 + dv as nat <= m);
                assert(all_digits(extended));
            }
            acc = acc * 10 + dv;
            i = i + 1;
        }
        proof {
            assert(s@.subrange(start as int, n as int) =~= d);
        }
        Some(acc)
    }

    fn default_value() -> (r: u64) {
        0
    }
}

} // verus!
