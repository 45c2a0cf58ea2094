//! The locally-executed backend: turn an agent's request into the command a
//! target actually runs. The request is authenticated against the catalog,
//! checked against the target's shape, and rewritten through its transform:
//! `{token}` references pull in secrets, argv and stdin go through
//! substring replacement. Running the prepared command is the surrounding
//! program's business.

use vstd::prelude::*;

use crate::bunker::{spec_blank, Bunker, TargetDef, is_blank};
use crate::table::{names_contain, spec_lookup, spec_name_present, table_get};
use crate::wire::{bytes_eq, find_byte_from, spec_dec_digits, spec_find_from, u64_to_decimal};

verus! {

/// The first index at or past `from` where `pat` occurs in `s`, if any.
pub open spec fn spec_find_sub_from(s: Seq<u8>, pat: Seq<u8>, from: nat) -> Option<nat>
    decreases s.len() - from,
{
    if pat.len() == 0 {
        Some(from)
    } else if from + pat.len() > s.len() {
        None
    } else if s.subrange(from as int, (from + pat.len()) as int) == pat {
        Some(from)
    } else {
        spec_find_sub_from(s, pat, (from + 1) as nat)
    }
}

/// `s` from `pos` on, with every later occurrence of `pat` (non-empty,
/// non-overlapping, left to right) replaced by `to`.
pub open spec fn spec_replace_from(s: Seq<u8>, pat: Seq<u8>, to: Seq<u8>, pos: nat) -> Seq<u8>
    decreases s.len() - pos,
{
    match spec_find_sub_from(s, pat, pos) {
        None => s.skip(pos as int),
        Some(i) => if !(pos <= i && pat.len() > 0 && i + pat.len() <= s.len()) {
            s.skip(pos as int)
        } else {
            s.subrange(pos as int, i as int) + to + spec_replace_from(
                s,
                pat,
                to,
                (i + pat.len()) as nat,
            )
        },
    }
}

/// `s` with every occurrence of `pat` replaced by `to`; an empty pattern
/// replaces nothing.
pub open spec fn spec_replace_all(s: Seq<u8>, pat: Seq<u8>, to: Seq<u8>) -> Seq<u8> {
    if pat.len() == 0 {
        s
    } else {
        spec_replace_from(s, pat, to, 0)
    }
}

/// Scan for `pat` at or past `from`.
fn find_sub_from(s: &[u8], pat: &[u8], from: usize) -> (r: Option<usize>)
    requires
        from <= s@.len(),
        pat@.len() >= 1,
    ensures
        match r {
            Some(i) => from <= i && i + pat@.len() <= s@.len() && spec_find_sub_from(
                s@,
                pat@,
                from as nat,
            ) == Some(i as nat),
            None => spec_find_sub_from(s@, pat@, from as nat) is None,
        },
{
    if pat.len() > s.len() {
        proof {
            assert(spec_find_sub_from(s@, pat@, from as nat) is None);
        }
        return None;
    }
    let mut i: usize = from;
    while i <= s.len() - pat.len()
        invariant
            from <= i,
            i <= s@.len(),
            pat@.len() >= 1,
            pat@.len() <= s@.len(),
            spec_find_sub_from(s@, pat@, from as nat) == spec_find_sub_from(s@, pat@, i as nat),
        decreases s@.len() - i,
    {
        let window = vstd::slice::slice_subrange(s, i, i + pat.len());
        if bytes_eq(window, pat) {
            return Some(i);
        }
        i = i + 1;
    }
    None
}

/// Replace every occurrence of `pat` in `s` by `to`, left to right, without
/// rescanning what `to` brought in. An empty pattern replaces nothing.
pub fn replace_all(s: &[u8], pat: &[u8], to: &[u8]) -> (r: Vec<u8>)
    ensures
        r@ == spec_replace_all(s@, pat@, to@),
{
    if pat.len() == 0 {
        return vstd::slice::slice_to_vec(s);
    }
    let mut out: Vec<u8> = Vec::new();
    let mut pos: usize = 0;
    while pos < s.len()
        invariant
            pos <= s@.len(),
            pat@.len() >= 1,
            spec_replace_from(s@, pat@, to@, 0) == out@ + spec_replace_from(
                s@,
                pat@,
                to@,
                pos as nat,
            ),
        decreases s@.len() - pos,
    {
        match find_sub_from(s, pat, pos) {
            None => {
                proof {
                    assert(spec_replace_from(s@, pat@, to@, pos as nat) == s@.skip(pos as int));
                }
                out.extend_from_slice(vstd::slice::slice_subrange(s, pos, s.len()));
                proof {
                    assert(out@ =~= spec_replace_from(s@, pat@, to@, 0));
                }
                return out;
            },
            Some(i) => {
                let ghost out0: Seq<u8> = out@;
                let ghost newpos: nat = (i as nat + pat@.len()) as nat;
                out.extend_from_slice(vstd::slice::slice_subrange(s, pos, i));
                out.extend_from_slice(to);
                proof {
                    assert(out@ =~= out0 + s@.subrange(pos as int, i as int) + to@);
                    assert(spec_replace_from(s@, pat@, to@, pos as nat) == s@.subrange(
                        pos as int,
                        i as int,
                    ) + to@ + spec_replace_from(s@, pat@, to@, newpos));
                    assert(out@ + spec_replace_from(s@, pat@, to@, newpos) =~= out0
                        + spec_replace_from(s@, pat@, to@, pos as nat));
                }
                pos = i + pat.len();
            },
        }
    }
    proof {
        assert(s@.skip(pos as int).len() == 0);
        assert(match spec_find_sub_from(s@, pat@, pos as nat) {
            None => true,
            Some(i) => i + pat@.len() <= s@.len(),
        });
        assert(spec_replace_from(s@, pat@, to@, pos as nat) =~= Seq::<u8>::empty());
        assert(out@ + spec_replace_from(s@, pat@, to@, pos as nat) =~= out@);
    }
    out
}

/// How many non-empty `{token}` placeholders a scan of `s` from `pos`
/// finds.
pub open spec fn spec_count_from(s: Seq<u8>, pos: nat) -> int
    decreases s.len() - pos,
{
    match spec_find_from(s, 123u8, pos) {
        None => 0,
        Some(a) => match spec_find_from(s, 125u8, a) {
            None => 0,
            Some(b) => if !(pos <= b && b < s.len()) {
                0
            } else {
                (if b > a + 1 {
                    1int
                } else {
                    0int
                }) + spec_count_from(s, (b + 1) as nat)
            },
        },
    }
}

/// Count the non-empty `{token}` placeholders in `s`.
pub fn count_placeholders(s: &[u8]) -> (r: usize)
    ensures
        r as int == spec_count_from(s@, 0),
{
    let mut count: usize = 0;
    let mut pos: usize = 0;
    while pos < s.len()
        invariant
            pos <= s@.len(),
            2 * count <= pos,
            spec_count_from(s@, 0) == count + spec_count_from(s@, pos as nat),
        decreases s@.len() - pos,
    {
        let a = match find_byte_from(s, 123u8, pos) {
            Some(a) => a,
            None => {
                return count;
            },
        };
        let b = match find_byte_from(s, 125u8, a) {
            Some(b) => b,
            None => {
                return count;
            },
        };
        if b > a + 1 {
            count = count + 1;
        }
        pos = b + 1;
    }
    count
}

/// Why a template cannot be rendered.
pub enum RenderFail {
    /// A `{` with no closing `}`.
    Malformed,
    /// A `{token}` naming no secret; the token is kept.
    UnknownSecret(Seq<u8>),
}

/// Render `s` from `pos` on: each `{token}` is replaced by the secret it
/// names; the replacement text is not rescanned.
pub open spec fn spec_render_from(
    s: Seq<u8>,
    secrets: Seq<(Vec<u8>, Vec<u8>)>,
    pos: nat,
) -> Result<Seq<u8>, RenderFail>
    decreases s.len() - pos,
{
    match spec_find_from(s, 123u8, pos) {
        None => Ok(s.skip(pos as int)),
        Some(a) => match spec_find_from(s, 125u8, a) {
            None => Err(RenderFail::Malformed),
            Some(b) => if !(pos <= a && a < b && b < s.len()) {
                Err(RenderFail::Malformed)
            } else {
                let tok = s.subrange(a + 1 as int, b as int);
                match spec_lookup(secrets, tok) {
                    None => Err(RenderFail::UnknownSecret(tok)),
                    Some(v) => match spec_render_from(s, secrets, (b + 1) as nat) {
                        Err(e) => Err(e),
                        Ok(r) => Ok(s.subrange(pos as int, a as int) + v@ + r),
                    },
                }
            },
        },
    }
}

/// What rendering the whole template yields.
pub open spec fn spec_render(s: Seq<u8>, secrets: Seq<(Vec<u8>, Vec<u8>)>) -> Result<
    Seq<u8>,
    RenderFail,
> {
    spec_render_from(s, secrets, 0)
}

/// Render a template against the secrets table.
pub fn render_secret_tokens(tmpl: &[u8], secrets: &Vec<(Vec<u8>, Vec<u8>)>) -> (r: Result<
    Vec<u8>,
    RenderRefusal,
>)
    ensures
        match r {
            Ok(v) => spec_render(tmpl@, secrets@) == Ok::<Seq<u8>, RenderFail>(v@),
            Err(rr) => spec_render(tmpl@, secrets@) == Err::<Seq<u8>, RenderFail>(
                spec_fail_of(rr),
            ),
        },
{
    let mut out: Vec<u8> = Vec::new();
    let mut pos: usize = 0;
    while pos < tmpl.len()
        invariant
            pos <= tmpl@.len(),
            spec_render_from(tmpl@, secrets@, 0) == (match spec_render_from(
                tmpl@,
                secrets@,
                pos as nat,
            ) {
                Ok(rest) => Ok::<Seq<u8>, RenderFail>(out@ + rest),
                Err(e) => Err::<Seq<u8>, RenderFail>(e),
            }),
        decreases tmpl@.len() - pos,
    {
        let a = match find_byte_from(tmpl, 123u8, pos) {
            Some(a) => a,
            None => {
                out.extend_from_slice(vstd::slice::slice_subrange(tmpl, pos, tmpl.len()));
                proof {
                    assert(out@ =~= spec_render_from(tmpl@, secrets@, 0)->Ok_0);
                }
                return Ok(out);
            },
        };
        let b = match find_byte_from(tmpl, 125u8, a) {
            Some(b) => b,
            None => {
                return Err(RenderRefusal::Malformed);
            },
        };
        proof {
            assert(tmpl@[a as int] == 123u8 && tmpl@[b as int] == 125u8);
        }
        let tok = vstd::slice::slice_subrange(tmpl, a + 1, b);
        let value = match table_get(secrets, tok) {
            Some(v) => v,
            None => {
                return Err(RenderRefusal::UnknownSecret(vstd::slice::slice_to_vec(tok)));
            },
        };
        let ghost out0: Seq<u8> = out@;
        out.extend_from_slice(vstd::slice::slice_subrange(tmpl, pos, a));
        out.extend_from_slice(value.as_slice());
        proof {
            let newpos: nat = (b + 1) as nat;
            assert(out@ =~= out0 + tmpl@.subrange(pos as int, a as int) + value@);
            match spec_render_from(tmpl@, secrets@, newpos) {
                Ok(r) => {
                    assert(out@ + r =~= out0 + (tmpl@.subrange(pos as int, a as int) + value@
                        + r));
                },
                Err(_) => {},
            }
        }
        pos = b + 1;
    }
    proof {
        assert(tmpl@.skip(pos as int).len() == 0);
        assert(spec_render_from(tmpl@, secrets@, pos as nat) matches Ok(rest) && rest
            =~= Seq::<u8>::empty());
        assert(out@ + Seq::<u8>::empty() =~= out@);
    }
    Ok(out)
}

/// Why a template was refused, carried back to the caller.
#[derive(Clone, Debug, PartialEq, Eq)]
pub enum RenderRefusal {
    Malformed,
    UnknownSecret(Vec<u8>),
}

/// The mathematical value of a refusal.
pub open spec fn spec_fail_of(r: RenderRefusal) -> RenderFail {
    match r {
        RenderRefusal::Malformed => RenderFail::Malformed,
        RenderRefusal::UnknownSecret(t) => RenderFail::UnknownSecret(t@),
    }
}

/// `non-conforming payload: field '`
pub open spec fn spec_msg_field_prefix() -> Seq<u8> {
    seq![
        110u8, 111u8, 110u8, 45u8, 99u8, 111u8, 110u8, 102u8, 111u8, 114u8, 109u8, 105u8, 110u8,
        103u8, 32u8, 112u8, 97u8, 121u8, 108u8, 111u8, 97u8, 100u8, 58u8, 32u8, 102u8, 105u8,
        101u8, 108u8, 100u8, 32u8, 39u8,
    ]
}

/// `' is not allowed`
pub open spec fn spec_msg_suffix_not_allowed() -> Seq<u8> {
    seq![
        39u8, 32u8, 105u8, 115u8, 32u8, 110u8, 111u8, 116u8, 32u8, 97u8, 108u8, 108u8, 111u8,
        119u8, 101u8, 100u8,
    ]
}

/// `' is forbidden`
pub open spec fn spec_msg_suffix_forbidden() -> Seq<u8> {
    seq![39u8, 32u8, 105u8, 115u8, 32u8, 102u8, 111u8, 114u8, 98u8, 105u8, 100u8, 100u8, 101u8, 110u8]
}

/// `' is required`
pub open spec fn spec_msg_suffix_required() -> Seq<u8> {
    seq![39u8, 32u8, 105u8, 115u8, 32u8, 114u8, 101u8, 113u8, 117u8, 105u8, 114u8, 101u8, 100u8]
}

/// `non-conforming payload: argv required for placeholder check`
pub open spec fn spec_msg_argv_required() -> Seq<u8> {
    seq![
        110u8, 111u8, 110u8, 45u8, 99u8, 111u8, 110u8, 102u8, 111u8, 114u8, 109u8, 105u8, 110u8,
        103u8, 32u8, 112u8, 97u8, 121u8, 108u8, 111u8, 97u8, 100u8, 58u8, 32u8, 97u8, 114u8,
        103u8, 118u8, 32u8, 114u8, 101u8, 113u8, 117u8, 105u8, 114u8, 101u8, 100u8, 32u8, 102u8,
        111u8, 114u8, 32u8, 112u8, 108u8, 97u8, 99u8, 101u8, 104u8, 111u8, 108u8, 100u8, 101u8,
        114u8, 32u8, 99u8, 104u8, 101u8, 99u8, 107u8,
    ]
}

/// `non-conforming payload: argv placeholder count is `
pub open spec fn spec_msg_count_prefix() -> Seq<u8> {
    seq![
        110u8, 111u8, 110u8, 45u8, 99u8, 111u8, 110u8, 102u8, 111u8, 114u8, 109u8, 105u8, 110u8,
        103u8, 32u8, 112u8, 97u8, 121u8, 108u8, 111u8, 97u8, 100u8, 58u8, 32u8, 97u8, 114u8,
        103u8, 118u8, 32u8, 112u8, 108u8, 97u8, 99u8, 101u8, 104u8, 111u8, 108u8, 100u8, 101u8,
        114u8, 32u8, 99u8, 111u8, 117u8, 110u8, 116u8, 32u8, 105u8, 115u8, 32u8,
    ]
}

/// `, expected `
pub open spec fn spec_msg_count_mid() -> Seq<u8> {
    seq![44u8, 32u8, 101u8, 120u8, 112u8, 101u8, 99u8, 116u8, 101u8, 100u8, 32u8]
}

/// `non-conforming payload: command resolved empty`
pub open spec fn spec_msg_command_empty() -> Seq<u8> {
    seq![
        110u8, 111u8, 110u8, 45u8, 99u8, 111u8, 110u8, 102u8, 111u8, 114u8, 109u8, 105u8, 110u8,
        103u8, 32u8, 112u8, 97u8, 121u8, 108u8, 111u8, 97u8, 100u8, 58u8, 32u8, 99u8, 111u8,
        109u8, 109u8, 97u8, 110u8, 100u8, 32u8, 114u8, 101u8, 115u8, 111u8, 108u8, 118u8, 101u8,
        100u8, 32u8, 101u8, 109u8, 112u8, 116u8, 121u8,
    ]
}

/// `non-conforming payload: malformed template token`
pub open spec fn spec_msg_malformed() -> Seq<u8> {
    seq![
        110u8, 111u8, 110u8, 45u8, 99u8, 111u8, 110u8, 102u8, 111u8, 114u8, 109u8, 105u8, 110u8,
        103u8, 32u8, 112u8, 97u8, 121u8, 108u8, 111u8, 97u8, 100u8, 58u8, 32u8, 109u8, 97u8,
        108u8, 102u8, 111u8, 114u8, 109u8, 101u8, 100u8, 32u8, 116u8, 101u8, 109u8, 112u8, 108u8,
        97u8, 116u8, 101u8, 32u8, 116u8, 111u8, 107u8, 101u8, 110u8,
    ]
}

/// `non-conforming payload: unknown secret '`
pub open spec fn spec_msg_secret_prefix() -> Seq<u8> {
    seq![
        110u8, 111u8, 110u8, 45u8, 99u8, 111u8, 110u8, 102u8, 111u8, 114u8, 109u8, 105u8, 110u8,
        103u8, 32u8, 112u8, 97u8, 121u8, 108u8, 111u8, 97u8, 100u8, 58u8, 32u8, 117u8, 110u8,
        107u8, 110u8, 111u8, 119u8, 110u8, 32u8, 115u8, 101u8, 99u8, 114u8, 101u8, 116u8, 32u8,
        39u8,
    ]
}

/// The message a failed render is reported with.
pub open spec fn spec_render_msg(e: RenderFail) -> Seq<u8> {
    match e {
        RenderFail::Malformed => spec_msg_malformed(),
        RenderFail::UnknownSecret(t) => spec_msg_secret_prefix() + t + seq![39u8],
    }
}

/// Prefix, middle, suffix.
fn concat3(prefix: Vec<u8>, mid: &[u8], suffix: Vec<u8>) -> (r: Vec<u8>)
    ensures
        r@ == prefix@ + mid@ + suffix@,
{
    let ghost p0: Seq<u8> = prefix@;
    let ghost s0: Seq<u8> = suffix@;
    let mut out = prefix;
    out.extend_from_slice(mid);
    let mut s = suffix;
    out.append(&mut s);
    proof {
        assert(out@ =~= p0 + mid@ + s0);
    }
    out
}

/// A request from an agent to a target, as the daemon reads it off the
/// wire: which fields are present is part of what the shape judges.
#[derive(Clone, Debug, PartialEq, Eq)]
pub struct InvokePayload {
    pub agent_id: Vec<u8>,
    pub agent_secret: Vec<u8>,
    pub target: Vec<u8>,
    pub command: Option<Vec<u8>>,
    pub argv: Option<Vec<Vec<u8>>>,
    pub env: Option<Vec<(Vec<u8>, Vec<u8>)>>,
    pub stdin: Option<Vec<u8>>,
}

#[derive(Clone, Debug, PartialEq, Eq)]
pub enum InvokeError {
    /// The agent is unknown or presented the wrong credential.
    Unauthenticated,
    /// The agent may not invoke this target.
    Denied,
    /// The target is not in the catalog.
    UnknownTarget,
    /// The request does not conform to the target's shape; the message says
    /// how.
    BadRequest(Vec<u8>),
    /// Running the prepared command failed; raised by the surrounding
    /// program, never by the library.
    Internal(Vec<u8>),
}

/// What a conforming request becomes: the command to run, its arguments,
/// environment, and standard input.
#[derive(Clone, Debug, PartialEq, Eq)]
pub struct PreparedCommand {
    pub command: Vec<u8>,
    pub argv: Vec<Vec<u8>>,
    pub env: Vec<(Vec<u8>, Vec<u8>)>,
    pub stdin: Vec<u8>,
}

/// The mathematical value of a prepared command.
pub struct ConformedData {
    pub command: Seq<u8>,
    pub argv: Seq<Seq<u8>>,
    pub env: Seq<(Seq<u8>, Seq<u8>)>,
    pub stdin: Seq<u8>,
}

/// The pairs of a table, each as its two byte strings.
pub open spec fn spec_pair_views(v: Seq<(Vec<u8>, Vec<u8>)>) -> Seq<(Seq<u8>, Seq<u8>)> {
    Seq::new(v.len(), |i: int| (v[i].0@, v[i].1@))
}

impl View for PreparedCommand {
    type V = ConformedData;

    open spec fn view(&self) -> ConformedData {
        ConformedData {
            command: self.command@,
            argv: self.argv.deep_view(),
            env: spec_pair_views(self.env@),
            stdin: self.stdin@,
        }
    }
}

/// The first complaint the shape raises over one field, if any: present but
/// not allowed; present but forbidden; absent but required.
pub open spec fn spec_field_violation(def: TargetDef, present: bool, name: Seq<u8>) -> Option<
    Seq<u8>,
> {
    if present && !spec_name_present(def.shape.allow@, name) {
        Some(spec_msg_field_prefix() + name + spec_msg_suffix_not_allowed())
    } else if present && spec_name_present(def.shape.forbid@, name) {
        Some(spec_msg_field_prefix() + name + spec_msg_suffix_forbidden())
    } else if !present && spec_name_present(def.shape.require@, name) {
        Some(spec_msg_field_prefix() + name + spec_msg_suffix_required())
    } else {
        None
    }
}

/// The first complaint the shape raises over the whole request, fields in
/// wire order.
pub open spec fn spec_shape_violation(def: TargetDef, p: InvokePayload) -> Option<Seq<u8>> {
    match spec_field_violation(def, p.command is Some, crate::bunker::spec_field_command()) {
        Some(m) => Some(m),
        None => match spec_field_violation(def, p.argv is Some, crate::bunker::spec_field_argv()) {
            Some(m) => Some(m),
            None => match spec_field_violation(
                def,
                p.env is Some,
                crate::bunker::spec_field_env(),
            ) {
                Some(m) => Some(m),
                None => spec_field_violation(
                    def,
                    p.stdin is Some,
                    crate::bunker::spec_field_stdin(),
                ),
            },
        },
    }
}

/// The total placeholder count over a list of argv entries.
pub open spec fn spec_sum_counts(items: Seq<Vec<u8>>) -> int
    decreases items.len(),
{
    if items.len() == 0 {
        0
    } else {
        spec_count_from(items[0]@, 0) + spec_sum_counts(items.drop_first())
    }
}

/// A placeholder count is never negative.
pub proof fn lemma_count_from_nonneg(s: Seq<u8>, pos: nat)
    ensures
        spec_count_from(s, pos) >= 0,
    decreases s.len() - pos,
{
    match spec_find_from(s, 123u8, pos) {
        None => {},
        Some(a) => match spec_find_from(s, 125u8, a) {
            None => {},
            Some(b) => {
                if pos <= b && b < s.len() {
                    lemma_count_from_nonneg(s, (b + 1) as nat);
                }
            },
        },
    }
}

/// A placeholder sum is never negative.
pub proof fn lemma_sum_counts_nonneg(items: Seq<Vec<u8>>)
    ensures
        spec_sum_counts(items) >= 0,
    decreases items.len(),
{
    if items.len() > 0 {
        lemma_count_from_nonneg(items[0]@, 0);
        lemma_sum_counts_nonneg(items.drop_first());
    }
}

/// One argv entry after the target's replacement pairs, applied in order.
pub open spec fn spec_apply_reps(
    item: Seq<u8>,
    reps: Seq<(Vec<u8>, Vec<u8>)>,
    secrets: Seq<(Vec<u8>, Vec<u8>)>,
) -> Result<Seq<u8>, RenderFail>
    decreases reps.len(),
{
    if reps.len() == 0 {
        Ok(item)
    } else {
        match spec_render(reps[0].1@, secrets) {
            Err(e) => Err(e),
            Ok(to) => spec_apply_reps(
                spec_replace_all(item, reps[0].0@, to),
                reps.drop_first(),
                secrets,
            ),
        }
    }
}

/// Every argv entry after the replacement pairs.
pub open spec fn spec_transform_items(
    items: Seq<Seq<u8>>,
    reps: Seq<(Vec<u8>, Vec<u8>)>,
    secrets: Seq<(Vec<u8>, Vec<u8>)>,
) -> Result<Seq<Seq<u8>>, RenderFail>
    decreases items.len(),
{
    if items.len() == 0 {
        Ok(Seq::empty())
    } else {
        match spec_apply_reps(items[0], reps, secrets) {
            Err(e) => Err(e),
            Ok(x) => match spec_transform_items(items.drop_first(), reps, secrets) {
                Err(e) => Err(e),
                Ok(xs) => Ok(seq![x] + xs),
            },
        }
    }
}

/// The request's environment with each rendered `out_env` pair put in
/// front; under first-match lookup a later pair overrides an earlier one
/// and both override the request's own entry.
pub open spec fn spec_apply_env(
    env0: Seq<(Seq<u8>, Seq<u8>)>,
    outs: Seq<(Vec<u8>, Vec<u8>)>,
    secrets: Seq<(Vec<u8>, Vec<u8>)>,
) -> Result<Seq<(Seq<u8>, Seq<u8>)>, RenderFail>
    decreases outs.len(),
{
    if outs.len() == 0 {
        Ok(env0)
    } else {
        match spec_render(outs[0].0@, secrets) {
            Err(e) => Err(e),
            Ok(k) => match spec_render(outs[0].1@, secrets) {
                Err(e) => Err(e),
                Ok(v) => spec_apply_env(seq![(k, v)] + env0, outs.drop_first(), secrets),
            },
        }
    }
}

/// Whether the argv placeholder sum stays within the machine's reach; the
/// conformance check counts them all before comparing.
pub open spec fn spec_argv_sum_fits(p: InvokePayload) -> bool {
    match p.argv {
        Some(av) => spec_sum_counts(av@) <= usize::MAX,
        None => true,
    }
}

/// What conforming a request to a target yields: the prepared command, or
/// the first complaint, judged in this order — field shape, placeholder
/// count, command render (refused when it resolves blank), argv transform,
/// environment transform, stdin transform.
pub open spec fn spec_conform(
    def: TargetDef,
    p: InvokePayload,
    secrets: Seq<(Vec<u8>, Vec<u8>)>,
) -> Result<ConformedData, Seq<u8>> {
    match spec_shape_violation(def, p) {
        Some(m) => Err(m),
        None => {
            let placeholder_err = match def.shape.argv_placeholders {
                Some(expect) => match p.argv {
                    None => Some(spec_msg_argv_required()),
                    Some(av) => if spec_sum_counts(av@) != expect {
                        Some(
                            spec_msg_count_prefix() + spec_dec_digits(
                                spec_sum_counts(av@) as nat,
                            ) + spec_msg_count_mid() + spec_dec_digits(expect as nat),
                        )
                    } else {
                        None
                    },
                },
                None => None,
            };
            match placeholder_err {
                Some(m) => Err(m),
                None => match spec_render(def.transform.out_command@, secrets) {
                    Err(e) => Err(spec_render_msg(e)),
                    Ok(cmd) => if spec_blank(cmd) {
                        Err(spec_msg_command_empty())
                    } else {
                        let items0 = match p.argv {
                            Some(av) => av.deep_view(),
                            None => Seq::<Seq<u8>>::empty(),
                        };
                        match spec_transform_items(
                            items0,
                            def.transform.out_argv_replace@,
                            secrets,
                        ) {
                            Err(e) => Err(spec_render_msg(e)),
                            Ok(argv2) => {
                                let env0 = match p.env {
                                    Some(e0) => spec_pair_views(e0@),
                                    None => Seq::<(Seq<u8>, Seq<u8>)>::empty(),
                                };
                                match spec_apply_env(env0, def.transform.out_env@, secrets) {
                                    Err(e) => Err(spec_render_msg(e)),
                                    Ok(env2) => {
                                        let st0 = match p.stdin {
                                            Some(sd) => sd@,
                                            None => Seq::<u8>::empty(),
                                        };
                                        match spec_apply_reps(
                                            st0,
                                            def.transform.out_stdin_replace@,
                                            secrets,
                                        ) {
                                            Err(e) => Err(spec_render_msg(e)),
                                            Ok(st2) => Ok(
                                                ConformedData {
                                                    command: cmd,
                                                    argv: argv2,
                                                    env: env2,
                                                    stdin: st2,
                                                },
                                            ),
                                        }
                                    },
                                }
                            },
                        }
                    },
                },
            }
        },
    }
}

/// The message a failed render is reported with, as bytes.
fn render_refusal_msg(r: RenderRefusal) -> (m: Vec<u8>)
    ensures
        m@ == spec_render_msg(spec_fail_of(r)),
{
    match r {
        RenderRefusal::Malformed => {
            let m: Vec<u8> = vec![
                110u8, 111u8, 110u8, 45u8, 99u8, 111u8, 110u8, 102u8, 111u8, 114u8, 109u8, 105u8,
                110u8, 103u8, 32u8, 112u8, 97u8, 121u8, 108u8, 111u8, 97u8, 100u8, 58u8, 32u8,
                109u8, 97u8, 108u8, 102u8, 111u8, 114u8, 109u8, 101u8, 100u8, 32u8, 116u8, 101u8,
                109u8, 112u8, 108u8, 97u8, 116u8, 101u8, 32u8, 116u8, 111u8, 107u8, 101u8, 110u8,
            ];
            proof {
                assert(m@ =~= spec_msg_malformed());
            }
            m
        },
        RenderRefusal::UnknownSecret(t) => {
            let prefix: Vec<u8> = vec![
                110u8, 111u8, 110u8, 45u8, 99u8, 111u8, 110u8, 102u8, 111u8, 114u8, 109u8, 105u8,
                110u8, 103u8, 32u8, 112u8, 97u8, 121u8, 108u8, 111u8, 97u8, 100u8, 58u8, 32u8,
                117u8, 110u8, 107u8, 110u8, 111u8, 119u8, 110u8, 32u8, 115u8, 101u8, 99u8, 114u8,
                101u8, 116u8, 32u8, 39u8,
            ];
            proof {
                assert(prefix@ =~= spec_msg_secret_prefix());
            }
            let quote: Vec<u8> = vec![39u8];
            proof {
                assert(quote@ =~= seq![39u8]);
            }
            concat3(prefix, t.as_slice(), quote)
        },
    }
}

/// Judge one field against the shape.
fn check_field(def: &TargetDef, present: bool, name: &Vec<u8>) -> (r: Option<Vec<u8>>)
    ensures
        match r {
            Some(m) => spec_field_violation(*def, present, name@) == Some(m@),
            None => spec_field_violation(*def, present, name@) is None,
        },
{
    let prefix: Vec<u8> = vec![
        110u8, 111u8, 110u8, 45u8, 99u8, 111u8, 110u8, 102u8, 111u8, 114u8, 109u8, 105u8, 110u8,
        103u8, 32u8, 112u8, 97u8, 121u8, 108u8, 111u8, 97u8, 100u8, 58u8, 32u8, 102u8, 105u8,
        101u8, 108u8, 100u8, 32u8, 39u8,
    ];
    proof {
        assert(prefix@ =~= spec_msg_field_prefix());
    }
    if present && !names_contain(&def.shape.allow, name.as_slice()) {
        let suffix: Vec<u8> = vec![
            39u8, 32u8, 105u8, 115u8, 32u8, 110u8, 111u8, 116u8, 32u8, 97u8, 108u8, 108u8, 111u8,
            119u8, 101u8, 100u8,
        ];
        proof {
            assert(suffix@ =~= spec_msg_suffix_not_allowed());
        }
        return Some(concat3(prefix, name.as_slice(), suffix));
    }
    if present && names_contain(&def.shape.forbid, name.as_slice()) {
        let suffix: Vec<u8> = vec![
            39u8, 32u8, 105u8, 115u8, 32u8, 102u8, 111u8, 114u8, 98u8, 105u8, 100u8, 100u8, 101u8,
            110u8,
        ];
        proof {
            assert(suffix@ =~= spec_msg_suffix_forbidden());
        }
        return Some(concat3(prefix, name.as_slice(), suffix));
    }
    if !present && names_contain(&def.shape.require, name.as_slice()) {
        let suffix: Vec<u8> = vec![
            39u8, 32u8, 105u8, 115u8, 32u8, 114u8, 101u8, 113u8, 117u8, 105u8, 114u8, 101u8,
            100u8,
        ];
        proof {
            assert(suffix@ =~= spec_msg_suffix_required());
        }
        return Some(concat3(prefix, name.as_slice(), suffix));
    }
    None
}

/// Apply the replacement pairs to one byte string.
fn apply_reps(
    item: Vec<u8>,
    reps: &Vec<(Vec<u8>, Vec<u8>)>,
    secrets: &Vec<(Vec<u8>, Vec<u8>)>,
) -> (r: Result<Vec<u8>, RenderRefusal>)
    ensures
        match r {
            Ok(v) => spec_apply_reps(item@, reps@, secrets@) == Ok::<Seq<u8>, RenderFail>(v@),
            Err(rr) => spec_apply_reps(item@, reps@, secrets@) == Err::<Seq<u8>, RenderFail>(
                spec_fail_of(rr),
            ),
        },
{
    let mut cur = item;
    let mut j: usize = 0;
    proof {
        assert(reps@.skip(0) =~= reps@);
    }
    while j < reps.len()
        invariant
            j <= reps@.len(),
            spec_apply_reps(item@, reps@, secrets@) == spec_apply_reps(
                cur@,
                reps@.skip(j as int),
                secrets@,
            ),
        decreases reps@.len() - j,
    {
        proof {
            assert(reps@.skip(j as int)[0] == reps@[j as int]);
            assert(reps@.skip(j as int).drop_first() =~= reps@.skip(j + 1));
        }
        let to = match render_secret_tokens(reps[j].1.as_slice(), secrets) {
            Ok(t) => t,
            Err(e) => {
                return Err(e);
            },
        };
        cur = replace_all(cur.as_slice(), reps[j].0.as_slice(), to.as_slice());
        j = j + 1;
    }
    proof {
        assert(reps@.skip(reps@.len() as int).len() == 0);
    }
    Ok(cur)
}


/// The total placeholder count over the argv entries.
fn sum_placeholder_counts(av: &Vec<Vec<u8>>) -> (r: usize)
    requires
        spec_sum_counts(av@) <= usize::MAX,
    ensures
        r as int == spec_sum_counts(av@),
{
    let mut actual: usize = 0;
    let mut i: usize = 0;
    proof {
        assert(av@.skip(0) =~= av@);
        lemma_sum_counts_nonneg(av@);
    }
    while i < av.len()
        invariant
            i <= av@.len(),
            spec_sum_counts(av@) <= usize::MAX,
            actual + spec_sum_counts(av@.skip(i as int)) == spec_sum_counts(av@),
            spec_sum_counts(av@.skip(i as int)) >= 0,
        decreases av@.len() - i,
    {
        proof {
            assert(av@.skip(i as int)[0] == av@[i as int]);
            assert(av@.skip(i as int).drop_first() =~= av@.skip(i + 1));
            lemma_count_from_nonneg(av@[i as int]@, 0);
            lemma_sum_counts_nonneg(av@.skip(i + 1));
        }
        let c = count_placeholders(av[i].as_slice());
        actual = actual + c;
        i = i + 1;
    }
    proof {
        assert(av@.skip(av@.len() as int).len() == 0);
    }
    actual
}

/// Apply the replacement pairs to each entry of a list.
fn transform_items(
    items: Vec<Vec<u8>>,
    reps: &Vec<(Vec<u8>, Vec<u8>)>,
    secrets: &Vec<(Vec<u8>, Vec<u8>)>,
) -> (r: Result<Vec<Vec<u8>>, RenderRefusal>)
    ensures
        match r {
            Ok(v) => spec_transform_items(items.deep_view(), reps@, secrets@) == Ok::<
                Seq<Seq<u8>>,
                RenderFail,
            >(v.deep_view()),
            Err(rr) => spec_transform_items(items.deep_view(), reps@, secrets@) == Err::<
                Seq<Seq<u8>>,
                RenderFail,
            >(spec_fail_of(rr)),
        },
{
    let ghost items0: Seq<Seq<u8>> = items.deep_view();
    let mut rest = items;
    let mut argv_out: Vec<Vec<u8>> = Vec::new();
    proof {
        assert(rest.deep_view() =~~= items0.skip(0));
    }
    while rest.len() > 0
        invariant
            items0 == items.deep_view(),
            argv_out.deep_view().len() + rest.deep_view().len() == items0.len(),
            rest.deep_view() == items0.skip(argv_out.deep_view().len() as int),
            spec_transform_items(items0, reps@, secrets@) == (match spec_transform_items(
                rest.deep_view(),
                reps@,
                secrets@,
            ) {
                Err(e) => Err::<Seq<Seq<u8>>, RenderFail>(e),
                Ok(xs) => Ok::<Seq<Seq<u8>>, RenderFail>(argv_out.deep_view() + xs),
            }),
        decreases rest@.len(),
    {
        let ghost rem: Seq<Seq<u8>> = rest.deep_view();
        let ghost done: Seq<Seq<u8>> = argv_out.deep_view();
        let item = rest.remove(0);
        proof {
            assert(rest.deep_view() =~~= rem.drop_first());
            assert(rem[0] == item@);
        }
        let transformed = match apply_reps(item, reps, secrets) {
            Ok(t) => t,
            Err(e) => {
                return Err(e);
            },
        };
        argv_out.push(transformed);
        proof {
            assert(argv_out.deep_view() =~~= done.push(transformed@));
            assert(rest.deep_view() =~~= items0.skip(done.len() as int + 1));
            match spec_transform_items(rest.deep_view(), reps@, secrets@) {
                Err(_) => {},
                Ok(xs) => {
                    assert(done.push(transformed@) + xs =~~= done + (seq![transformed@] + xs));
                },
            }
        }
    }
    proof {
        assert(rest.deep_view() =~~= Seq::<Seq<u8>>::empty());
        assert(spec_transform_items(rest.deep_view(), reps@, secrets@) == Ok::<
            Seq<Seq<u8>>,
            RenderFail,
        >(Seq::empty()));
        assert(argv_out.deep_view() + Seq::<Seq<u8>>::empty() =~~= argv_out.deep_view());
    }
    Ok(argv_out)
}

/// Put each rendered pair of `outs` in front of the environment, in order.
fn apply_env(
    env: Vec<(Vec<u8>, Vec<u8>)>,
    outs: &Vec<(Vec<u8>, Vec<u8>)>,
    secrets: &Vec<(Vec<u8>, Vec<u8>)>,
) -> (r: Result<Vec<(Vec<u8>, Vec<u8>)>, RenderRefusal>)
    ensures
        match r {
            Ok(v) => spec_apply_env(spec_pair_views(env@), outs@, secrets@) == Ok::<
                Seq<(Seq<u8>, Seq<u8>)>,
                RenderFail,
            >(spec_pair_views(v@)),
            Err(rr) => spec_apply_env(spec_pair_views(env@), outs@, secrets@) == Err::<
                Seq<(Seq<u8>, Seq<u8>)>,
                RenderFail,
            >(spec_fail_of(rr)),
        },
{
    let mut cur = env;
    let mut k: usize = 0;
    proof {
        assert(outs@.skip(0) =~= outs@);
    }
    while k < outs.len()
        invariant
            k <= outs@.len(),
            spec_apply_env(spec_pair_views(env@), outs@, secrets@) == spec_apply_env(
                spec_pair_views(cur@),
                outs@.skip(k as int),
                secrets@,
            ),
        decreases outs@.len() - k,
    {
        proof {
            assert(outs@.skip(k as int)[0] == outs@[k as int]);
            assert(outs@.skip(k as int).drop_first() =~= outs@.skip(k + 1));
        }
        let kk = match render_secret_tokens(outs[k].0.as_slice(), secrets) {
            Ok(t) => t,
            Err(e) => {
                return Err(e);
            },
        };
        let vv = match render_secret_tokens(outs[k].1.as_slice(), secrets) {
            Ok(t) => t,
            Err(e) => {
                return Err(e);
            },
        };
        let ghost env_before: Seq<(Seq<u8>, Seq<u8>)> = spec_pair_views(cur@);
        let ghost kk_v: Seq<u8> = kk@;
        let ghost vv_v: Seq<u8> = vv@;
        cur.insert(0, (kk, vv));
        proof {
            assert(spec_pair_views(cur@) =~~= seq![(kk_v, vv_v)] + env_before);
        }
        k = k + 1;
    }
    proof {
        assert(outs@.skip(outs@.len() as int).len() == 0);
    }
    Ok(cur)
}

/// Check a request against a target's shape and rewrite it through the
/// target's transform.
pub fn conform_payload(
    def: &TargetDef,
    payload: InvokePayload,
    secrets: &Vec<(Vec<u8>, Vec<u8>)>,
) -> (r: Result<PreparedCommand, Vec<u8>>)
    requires
        spec_argv_sum_fits(payload),
    ensures
        match r {
            Ok(pc) => spec_conform(*def, payload, secrets@) == Ok::<ConformedData, Seq<u8>>(pc@),
            Err(m) => spec_conform(*def, payload, secrets@) matches Err(mm) && m@ == mm,
        },
{
    let name_command: Vec<u8> = vec![99u8, 111u8, 109u8, 109u8, 97u8, 110u8, 100u8];
    let name_argv: Vec<u8> = vec![97u8, 114u8, 103u8, 118u8];
    let name_env: Vec<u8> = vec![101u8, 110u8, 118u8];
    let name_stdin: Vec<u8> = vec![115u8, 116u8, 100u8, 105u8, 110u8];
    proof {
        assert(name_command@ =~= crate::bunker::spec_field_command());
        assert(name_argv@ =~= crate::bunker::spec_field_argv());
        assert(name_env@ =~= crate::bunker::spec_field_env());
        assert(name_stdin@ =~= crate::bunker::spec_field_stdin());
    }
    if let Some(m) = check_field(def, payload.command.is_some(), &name_command) {
        return Err(m);
    }
    if let Some(m) = check_field(def, payload.argv.is_some(), &name_argv) {
        return Err(m);
    }
    if let Some(m) = check_field(def, payload.env.is_some(), &name_env) {
        return Err(m);
    }
    if let Some(m) = check_field(def, payload.stdin.is_some(), &name_stdin) {
        return Err(m);
    }
    if let Some(expect) = def.shape.argv_placeholders {
        match &payload.argv {
            None => {
                let m: Vec<u8> = vec![
                    110u8, 111u8, 110u8, 45u8, 99u8, 111u8, 110u8, 102u8, 111u8, 114u8, 109u8,
                    105u8, 110u8, 103u8, 32u8, 112u8, 97u8, 121u8, 108u8, 111u8, 97u8, 100u8,
                    58u8, 32u8, 97u8, 114u8, 103u8, 118u8, 32u8, 114u8, 101u8, 113u8, 117u8,
                    105u8, 114u8, 101u8, 100u8, 32u8, 102u8, 111u8, 114u8, 32u8, 112u8, 108u8,
                    97u8, 99u8, 101u8, 104u8, 111u8, 108u8, 100u8, 101u8, 114u8, 32u8, 99u8,
                    104u8, 101u8, 99u8, 107u8,
                ];
                proof {
                    assert(m@ =~= spec_msg_argv_required());
                }
                return Err(m);
            },
            Some(av) => {
                let actual = sum_placeholder_counts(av);
                if actual != expect {
                    let prefix: Vec<u8> = vec![
                        110u8, 111u8, 110u8, 45u8, 99u8, 111u8, 110u8, 102u8, 111u8, 114u8, 109u8,
                        105u8, 110u8, 103u8, 32u8, 112u8, 97u8, 121u8, 108u8, 111u8, 97u8, 100u8,
                        58u8, 32u8, 97u8, 114u8, 103u8, 118u8, 32u8, 112u8, 108u8, 97u8, 99u8,
                        101u8, 104u8, 111u8, 108u8, 100u8, 101u8, 114u8, 32u8, 99u8, 111u8, 117u8,
                        110u8, 116u8, 32u8, 105u8, 115u8, 32u8,
                    ];
                    let mid: Vec<u8> = vec![
                        44u8, 32u8, 101u8, 120u8, 112u8, 101u8, 99u8, 116u8, 101u8, 100u8, 32u8,
                    ];
                    proof {
                        assert(prefix@ =~= spec_msg_count_prefix());
                        assert(mid@ =~= spec_msg_count_mid());
                    }
                    let mut m = prefix;
                    let mut d1 = u64_to_decimal(actual as u64);
                    m.append(&mut d1);
                    let mut mid2 = mid;
                    m.append(&mut mid2);
                    let mut d2 = u64_to_decimal(expect as u64);
                    m.append(&mut d2);
                    proof {
                        assert(m@ =~= spec_msg_count_prefix() + spec_dec_digits(
                            spec_sum_counts(av@) as nat,
                        ) + spec_msg_count_mid() + spec_dec_digits(expect as nat));
                    }
                    return Err(m);
                }
            },
        }
    }
    let command = match render_secret_tokens(def.transform.out_command.as_slice(), secrets) {
        Ok(c) => c,
        Err(e) => {
            return Err(render_refusal_msg(e));
        },
    };
    if is_blank(command.as_slice()) {
        let m: Vec<u8> = vec![
            110u8, 111u8, 110u8, 45u8, 99u8, 111u8, 110u8, 102u8, 111u8, 114u8, 109u8, 105u8,
            110u8, 103u8, 32u8, 112u8, 97u8, 121u8, 108u8, 111u8, 97u8, 100u8, 58u8, 32u8, 99u8,
            111u8, 109u8, 109u8, 97u8, 110u8, 100u8, 32u8, 114u8, 101u8, 115u8, 111u8, 108u8,
            118u8, 101u8, 100u8, 32u8, 101u8, 109u8, 112u8, 116u8, 121u8,
        ];
        proof {
            assert(m@ =~= spec_msg_command_empty());
        }
        return Err(m);
    }
    let items: Vec<Vec<u8>> = match payload.argv {
        Some(v) => v,
        None => Vec::new(),
    };
    proof {
        assert(items.deep_view() =~~= (match payload.argv {
            Some(av) => av.deep_view(),
            None => Seq::<Seq<u8>>::empty(),
        }));
    }
    let argv_out = match transform_items(items, &def.transform.out_argv_replace, secrets) {
        Ok(v) => v,
        Err(e) => {
            return Err(render_refusal_msg(e));
        },
    };
    let env_in: Vec<(Vec<u8>, Vec<u8>)> = match payload.env {
        Some(e0) => e0,
        None => Vec::new(),
    };
    proof {
        assert(spec_pair_views(env_in@) =~~= (match payload.env {
            Some(e0) => spec_pair_views(e0@),
            None => Seq::<(Seq<u8>, Seq<u8>)>::empty(),
        }));
    }
    let env = match apply_env(env_in, &def.transform.out_env, secrets) {
        Ok(v) => v,
        Err(e) => {
            return Err(render_refusal_msg(e));
        },
    };
    let stdin_in: Vec<u8> = match payload.stdin {
        Some(sd) => sd,
        None => Vec::new(),
    };
    proof {
        assert(stdin_in@ =~= (match payload.stdin {
            Some(sd) => sd@,
            None => Seq::<u8>::empty(),
        }));
    }
    let stdin_out = match apply_reps(stdin_in, &def.transform.out_stdin_replace, secrets) {
        Ok(t) => t,
        Err(e) => {
            return Err(render_refusal_msg(e));
        },
    };
    Ok(PreparedCommand { command, argv: argv_out, env, stdin: stdin_out })
}

/// Whether the catalog authenticates this request: the agent is known and
/// the credential it presents is the one the catalog stores.
pub open spec fn spec_invoke_auth(b: Bunker, p: InvokePayload) -> bool {
    match spec_lookup(b.agents@, p.agent_id@) {
        Some(k) => k@ == p.agent_secret@,
        None => false,
    }
}

/// Decide a locally-executed invocation end to end: authenticate the agent,
/// check its permission for the target, find the target, and conform the
/// request. Running the result is the caller's business.
pub fn execute_invoke(bunker: &Bunker, payload: InvokePayload) -> (r: Result<
    PreparedCommand,
    InvokeError,
>)
    requires
        spec_argv_sum_fits(payload),
    ensures
        !spec_invoke_auth(*bunker, payload) ==> r == Err::<PreparedCommand, InvokeError>(
            InvokeError::Unauthenticated,
        ),
        (spec_invoke_auth(*bunker, payload) && !crate::bunker::spec_perm_allows(
            bunker.permissions@,
            payload.agent_id@,
            payload.target@,
        )) ==> r == Err::<PreparedCommand, InvokeError>(InvokeError::Denied),
        (spec_invoke_auth(*bunker, payload) && crate::bunker::spec_perm_allows(
            bunker.permissions@,
            payload.agent_id@,
            payload.target@,
        )) ==> match spec_lookup(bunker.targets@, payload.target@) {
            None => r == Err::<PreparedCommand, InvokeError>(InvokeError::UnknownTarget),
            Some(def) => match spec_conform(def, payload, bunker.secrets@) {
                Ok(cd) => r matches Ok(pc) && pc@ == cd,
                Err(m) => r matches Err(e) && e matches InvokeError::BadRequest(mv) && mv@ == m,
            },
        },
{
    let authed = match table_get(&bunker.agents, payload.agent_id.as_slice()) {
        Some(k) => bytes_eq(k.as_slice(), payload.agent_secret.as_slice()),
        None => false,
    };
    if !authed {
        return Err(InvokeError::Unauthenticated);
    }
    let allowed = match table_get(&bunker.permissions, payload.agent_id.as_slice()) {
        Some(l) => names_contain(l, payload.target.as_slice()),
        None => false,
    };
    if !allowed {
        return Err(InvokeError::Denied);
    }
    let def = match table_get(&bunker.targets, payload.target.as_slice()) {
        Some(d) => d,
        None => {
            return Err(InvokeError::UnknownTarget);
        },
    };
    match conform_payload(def, payload, &bunker.secrets) {
        Ok(pc) => Ok(pc),
        Err(m) => Err(InvokeError::BadRequest(m)),
    }
}

} // verus!
