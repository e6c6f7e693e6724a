//! Laws that relate the library's functions: what the scanner ignores,
//! and the precedence of default insertion.

use vstd::prelude::*;

use crate::directive::{candidates, directives_spec, has_marker};
use crate::store::add_default_spec;
use crate::text::trim_start_spec;
use crate::value::ValueView;

verus! {

/// A comment line lacking the directive marker contributes no entry:
/// removing such a line leaves the recognized candidates, and with them
/// the resolved directive mapping, exactly as they were.
pub proof fn lemma_non_directive_line_ignored(lines: Seq<Seq<char>>, i: int)
    requires
        0 <= i < lines.len(),
        !has_marker(trim_start_spec(lines[i])),
    ensures
        candidates(lines.remove(i)) == candidates(lines),
        directives_spec(lines.remove(i)) == directives_spec(lines),
    decreases lines.len(),
{
    if i == lines.len() - 1 {
        assert(lines.remove(i) =~= lines.drop_last());
    } else {
        lemma_non_directive_line_ignored(lines.drop_last(), i);
        assert(lines.remove(i).drop_last() =~= lines.drop_last().remove(i));
        assert(lines.remove(i).last() == lines.last());
        assert(lines.remove(i).len() > 0);
    }
}

/// A default never overrides an explicit entry, and of two defaults for
/// the same absent name only the first takes effect.
pub proof fn lemma_default_precedence(
    m: Map<Seq<char>, ValueView>,
    name: Seq<char>,
    first: ValueView,
    second: ValueView,
)
    ensures
        m.contains_key(name) ==> add_default_spec(m, name, first) == m,
        add_default_spec(add_default_spec(m, name, first), name, second) == add_default_spec(
            m,
            name,
            first,
        ),
{
    assert(add_default_spec(m, name, first).contains_key(name));
}

} // verus!
