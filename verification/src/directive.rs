//! The comment scanner and the directive parser. Lines carrying the
//! `cbindgen:` marker are scanned out of the declaration's comment lines
//! in order; each is split on `=` and its value typed; the results are
//! merged with the attribute-derived flags into one [`AnnotationSet`].

use vstd::prelude::*;

use crate::deprecated::{dep_note_spec, resolve_deprecated, DeclAttrs, LoadError, LoadErrorView};
use crate::store::AnnotationSet;
use crate::text::{
    lemma_split_spec_len, split_and_trim, split_trim_spec, str_starts_with, trim_start,
    trim_start_spec,
};
use crate::value::{infer_value, infer_value_spec, AnnotationValue, ValueView};

verus! {

pub open spec fn marker_chars() -> Seq<char> {
    seq!['c', 'b', 'i', 'n', 'd', 'g', 'e', 'n', ':']
}

/// Whether a line, already stripped of leading whitespace, carries the
/// directive marker.
pub open spec fn has_marker(t: Seq<char>) -> bool {
    t.len() >= 9 && t.subrange(0, 9) == marker_chars()
}

/// The directive candidates of a comment-line sequence, in order: each
/// line with leading whitespace removed, kept when it carries the marker.
pub open spec fn candidates(lines: Seq<Seq<char>>) -> Seq<Seq<char>>
    decreases lines.len(),
{
    if lines.len() == 0 {
        Seq::<Seq<char>>::empty()
    } else {
        let rest = candidates(lines.drop_last());
        let t = trim_start_spec(lines.last());
        if has_marker(t) {
            rest.push(t)
        } else {
            rest
        }
    }
}

/// One directive candidate applied to the mapping: the text after the
/// marker is split on `=` with each part trimmed. More than two parts is
/// the Malformed Directive fault, carrying the full line; one part binds
/// the name to `true`; two parts bind the name to the inferred value.
pub open spec fn apply_one(m: Map<Seq<char>, ValueView>, t: Seq<char>) -> Result<
    Map<Seq<char>, ValueView>,
    Seq<char>,
> {
    let parts = split_trim_spec(t.skip(9), '=');
    if parts.len() > 2 {
        Err(t)
    } else if parts.len() == 1 {
        Ok(m.insert(parts[0], ValueView::Bool(true)))
    } else {
        Ok(m.insert(parts[0], infer_value_spec(parts[1])))
    }
}

/// The candidates applied in order to the empty mapping; the first fault
/// stops the whole parse.
pub open spec fn apply_dirs(cands: Seq<Seq<char>>) -> Result<
    Map<Seq<char>, ValueView>,
    Seq<char>,
>
    decreases cands.len(),
{
    if cands.len() == 0 {
        Ok(Map::<Seq<char>, ValueView>::empty())
    } else {
        match apply_dirs(cands.drop_last()) {
            Err(e) => Err(e),
            Ok(m) => apply_one(m, cands.last()),
        }
    }
}

/// The mapping a comment-line sequence resolves to, or the offending
/// line of the first malformed directive.
pub open spec fn directives_spec(lines: Seq<Seq<char>>) -> Result<
    Map<Seq<char>, ValueView>,
    Seq<char>,
> {
    apply_dirs(candidates(lines))
}

/// Taking one more line extends the candidates by that line's trimmed
/// form exactly when it carries the marker.
proof fn lemma_candidates_take_step(lines: Seq<Seq<char>>, i: int)
    requires
        0 <= i < lines.len(),
    ensures
        candidates(lines.take(i + 1)) == (if has_marker(trim_start_spec(lines[i])) {
            candidates(lines.take(i)).push(trim_start_spec(lines[i]))
        } else {
            candidates(lines.take(i))
        }),
{
    assert(lines.take(i + 1).drop_last() =~= lines.take(i));
    assert(lines.take(i + 1).last() == lines[i]);
}

/// Appending one candidate applies it after the others.
proof fn lemma_apply_dirs_push(cands: Seq<Seq<char>>, t: Seq<char>)
    ensures
        apply_dirs(cands.push(t)) == (match apply_dirs(cands) {
            Ok(m) => apply_one(m, t),
            Err(e) => Err(e),
        }),
{
    assert(cands.push(t).drop_last() =~= cands);
    assert(cands.push(t).last() == t);
}

/// A prefix of the lines yields a prefix of the candidates.
proof fn lemma_candidates_prefix(lines: Seq<Seq<char>>, i: int)
    requires
        0 <= i <= lines.len(),
    ensures
        candidates(lines.take(i)).is_prefix_of(candidates(lines)),
    decreases lines.len() - i,
{
    if i == lines.len() {
        assert(lines.take(i) =~= lines);
    } else {
        lemma_candidates_prefix(lines, i + 1);
        lemma_candidates_take_step(lines, i);
    }
}

/// A fault among the first candidates is the fault of the whole sequence.
proof fn lemma_apply_dirs_prefix_err(c1: Seq<Seq<char>>, c2: Seq<Seq<char>>, e: Seq<char>)
    requires
        c1.is_prefix_of(c2),
        apply_dirs(c1) == Err::<Map<Seq<char>, ValueView>, _>(e),
    ensures
        apply_dirs(c2) == Err::<Map<Seq<char>, ValueView>, _>(e),
    decreases c2.len(),
{
    if c1.len() == c2.len() {
        assert(c1 =~= c2);
    } else {
        assert(c1.is_prefix_of(c2.drop_last()));
        lemma_apply_dirs_prefix_err(c1, c2.drop_last(), e);
    }
}

impl AnnotationSet {
    /// Builds the annotation set of one declaration from its raw comment
    /// lines and the reader's report of its structured attributes: the
    /// attribute flags are resolved first, then the directive lines in
    /// order, the last binding for a repeated name winning.
    pub fn load(lines: &Vec<String>, attrs: &DeclAttrs) -> (r: Result<AnnotationSet, LoadError>)
        ensures
            match r {
                Ok(s) => {
                    &&& dep_note_spec(attrs@) == Ok::<_, LoadErrorView>(s@.deprecated)
                    &&& directives_spec(lines.deep_view()) == Ok::<_, Seq<char>>(s@.map)
                    &&& s@.must_use == attrs.must_use_word
                },
                Err(e) => match e@ {
                    LoadErrorView::MalformedDirective(l) => dep_note_spec(attrs@) is Ok
                        && directives_spec(lines.deep_view()) == Err::<
                        Map<Seq<char>, ValueView>,
                        _,
                    >(l),
                    _ => dep_note_spec(attrs@) == Err::<Option<Seq<char>>, _>(e@),
                },
            },
    {
        let deprecated = match resolve_deprecated(attrs) {
            Ok(note) => note,
            Err(e) => {
                return Err(e);
            },
        };
        let mut set = AnnotationSet::with_flags(attrs.must_use_word, deprecated);
        let ghost lv = lines.deep_view();
        let n = lines.len();
        let mut idx: usize = 0;
        while idx < n
            invariant
                idx <= n,
                n == lines@.len(),
                lv == lines.deep_view(),
                lv.len() == n,
                set@.must_use == attrs.must_use_word,
                dep_note_spec(attrs@) == Ok::<_, LoadErrorView>(set@.deprecated),
                apply_dirs(candidates(lv.take(idx as int))) == Ok::<_, Seq<char>>(set@.map),
            decreases n - idx,
        {
            let line = trim_start(lines[idx].as_str());
            proof {
                assert(lv[idx as int] == lines@[idx as int]@);
                lemma_candidates_take_step(lv, idx as int);
            }
            let is_directive = str_starts_with(line, "cbindgen:");
            proof {
                reveal_strlit("cbindgen:");
                assert("cbindgen:"@ =~= marker_chars());
            }
            if is_directive {
                let ghost cands = candidates(lv.take(idx as int));
                proof {
                    assert(has_marker(line@));
                    lemma_apply_dirs_push(cands, line@);
                }
                let ln = line.unicode_len();
                let ann = line.substring_char(9, ln);
                proof {
                    assert(ann@ =~= line@.skip(9));
                }
                let parts = split_and_trim(ann, '=');
                proof {
                    lemma_split_spec_len(ann@, '=');
                    assert(parts.deep_view().len() >= 1);
                    assert(parts@.len() == parts.deep_view().len());
                }
                if parts.len() > 2 {
                    proof {
                        assert(apply_one(set@.map, line@) == Err::<
                            Map<Seq<char>, ValueView>,
                            _,
                        >(line@));
                        lemma_candidates_prefix(lv, idx as int + 1);
                        lemma_apply_dirs_prefix_err(
                            candidates(lv.take(idx as int + 1)),
                            candidates(lv),
                            line@,
                        );
                    }
                    return Err(LoadError::MalformedDirective(line.to_owned()));
                } else if parts.len() == 1 {
                    proof {
                        assert(parts.deep_view()[0] == parts@[0]@);
                    }
                    set.insert_value(parts[0].clone(), AnnotationValue::Bool(true));
                } else {
                    proof {
                        assert(parts.deep_view()[0] == parts@[0]@);
                        assert(parts.deep_view()[1] == parts@[1]@);
                    }
                    let value = infer_value(parts[1].as_str());
                    set.insert_value(parts[0].clone(), value);
                }
            }
            idx = idx + 1;
        }
        proof {
            assert(lv.take(n as int) =~= lv);
        }
        Ok(set)
    }
}

} // verus!
