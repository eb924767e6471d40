//! Workflow definitions and their variable substitution. Reading workflow
//! files from disk and deserializing them is the outer shell's; the
//! substitution of `{{ key }}` placeholders is computed here.

use vstd::prelude::*;
use crate::text::{chars_of, string_from_chars};

verus! {

/// One step of a workflow: a named prompt.
#[derive(Debug, Clone)]
pub struct Step {
    pub name: String,
    pub prompt: String,
    pub variables: Vec<(String, String)>,
}

/// A named sequence of steps.
#[derive(Debug, Clone)]
pub struct Workflow {
    pub name: String,
    pub description: Option<String>,
    pub steps: Vec<Step>,
}

/// The text with every occurrence of `pat` replaced by `rep`, scanning
/// left to right.
pub open spec fn replaced(s: Seq<char>, pat: Seq<char>, rep: Seq<char>) -> Seq<char>
    decreases s.len() when pat.len() > 0
{
    if s.len() < pat.len() {
        s
    } else if s.subrange(0, pat.len() as int) == pat {
        rep + replaced(s.subrange(pat.len() as int, s.len() as int), pat, rep)
    } else {
        seq![s[0]] + replaced(s.drop_first(), pat, rep)
    }
}

/// Replace every occurrence of `pat` in `s` by `rep`.
#[verifier::loop_isolation(false)]
pub fn replace_all(s: &str, pat: &str, rep: &str) -> (r: String)
    requires
        pat@.len() > 0,
    ensures
        r@ == replaced(s@, pat@, rep@),
{
    let sv = chars_of(s);
    let pv = chars_of(pat);
    let rv = chars_of(rep);
    let mut out: Vec<char> = Vec::new();
    let mut pos: usize = 0;
    proof {
        assert(sv@.subrange(0, sv@.len() as int) =~= sv@);
        assert(out@ + replaced(sv@, pat@, rep@) =~= replaced(s@, pat@, rep@));
    }
    while pos < sv.len()
        invariant
            pos <= sv@.len(),
            sv@ == s@,
            pv@ == pat@,
            rv@ == rep@,
            pat@.len() > 0,
            replaced(s@, pat@, rep@) == out@ + replaced(
                sv@.subrange(pos as int, sv@.len() as int),
                pat@,
                rep@,
            ),
        decreases sv@.len() - pos,
    {
        let ghost rest = sv@.subrange(pos as int, sv@.len() as int);
        let hit = if pv.len() <= sv.len() - pos {
            let mut k: usize = 0;
            let mut eq = true;
            while k < pv.len() && eq
                invariant
                    k <= pv@.len(),
                    pv@.len() <= sv@.len() - pos,
                    eq ==> forall|j: int| 0 <= j < k ==> sv@[pos + j] == pv@[j],
                    !eq ==> rest.subrange(0, pv@.len() as int) != pv@,
                decreases pv@.len() - k, (if eq { 1int } else { 0int }),
            {
                if sv[pos + k] != pv[k] {
                    proof {
                        assert(rest.subrange(0, pv@.len() as int)[k as int] == sv@[pos + k]);
                    }
                    eq = false;
                } else {
                    k += 1;
                }
            }
            proof {
                if eq {
                    assert(rest.subrange(0, pv@.len() as int) =~= pv@);
                }
            }
            eq
        } else {
            proof {
                assert(rest.len() < pv@.len());
            }
            false
        };
        let ghost prev = out@;
        if hit {
            let mut k: usize = 0;
            while k < rv.len()
                invariant
                    k <= rv@.len(),
                    out@ == prev + rv@.subrange(0, k as int),
                decreases rv@.len() - k,
            {
                out.push(rv[k]);
                proof {
                    assert(prev + rv@.subrange(0, (k + 1) as int) =~= (prev + rv@.subrange(
                        0,
                        k as int,
                    )).push(rv@[k as int]));
                }
                k += 1;
            }
            proof {
                assert(rv@.subrange(0, rv@.len() as int) =~= rv@);
                assert(rest.subrange(pv@.len() as int, rest.len() as int) =~= sv@.subrange(
                    pos + pv@.len(),
                    sv@.len() as int,
                ));
                assert((prev + rep@) + replaced(
                    sv@.subrange(pos + pv@.len(), sv@.len() as int),
                    pat@,
                    rep@,
                ) =~= prev + (rep@ + replaced(
                    sv@.subrange(pos + pv@.len(), sv@.len() as int),
                    pat@,
                    rep@,
                )));
            }
            pos = pos + pv.len();
        } else {
            out.push(sv[pos]);
            proof {
                assert(rest[0] == sv@[pos as int]);
                assert(rest.drop_first() =~= sv@.subrange(pos + 1, sv@.len() as int));
                assert((prev.push(sv@[pos as int])) + replaced(
                    sv@.subrange(pos + 1, sv@.len() as int),
                    pat@,
                    rep@,
                ) =~= prev + (seq![sv@[pos as int]] + replaced(
                    sv@.subrange(pos + 1, sv@.len() as int),
                    pat@,
                    rep@,
                )));
            }
            pos = pos + 1;
        }
    }
    proof {
        assert(sv@.subrange(sv@.len() as int, sv@.len() as int) =~= Seq::<char>::empty());
        assert(replaced(Seq::<char>::empty(), pat@, rep@) =~= Seq::<char>::empty());
        assert(out@ + Seq::<char>::empty() =~= out@);
    }
    string_from_chars(&out)
}

/// Substitute `{{ key }}` placeholders in every step's prompt with the
/// given argument values, in argument order.
pub fn apply_workflow_args(workflow: &mut Workflow, args: &Vec<(String, String)>)
    ensures
        final(workflow).name == old(workflow).name,
        final(workflow).description == old(workflow).description,
        final(workflow).steps@.len() == old(workflow).steps@.len(),
{
    let mut si: usize = 0;
    while si < workflow.steps.len()
        invariant
            si <= workflow.steps@.len(),
            workflow.name == old(workflow).name,
            workflow.description == old(workflow).description,
            workflow.steps@.len() == old(workflow).steps@.len(),
        decreases workflow.steps@.len() - si,
    {
        let mut ai: usize = 0;
        while ai < args.len()
            invariant
                ai <= args@.len(),
                si < workflow.steps@.len(),
                workflow.name == old(workflow).name,
                workflow.description == old(workflow).description,
                workflow.steps@.len() == old(workflow).steps@.len(),
            decreases args@.len() - ai,
        {
            let a = crate::text::concat_str("{{ ", args[ai].0.as_str());
            let placeholder = crate::text::concat_str(a.as_str(), " }}");
            proof {
                reveal_strlit("{{ ");
                assert(placeholder@.len() > 0);
            }
            let new_prompt = replace_all(
                workflow.steps[si].prompt.as_str(),
                placeholder.as_str(),
                args[ai].1.as_str(),
            );
            let slot = &mut workflow.steps[si];
            slot.prompt = new_prompt;
            ai += 1;
        }
        si += 1;
    }
}

} // verus!
