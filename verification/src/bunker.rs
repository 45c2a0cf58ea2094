//! The catalog ("bunker"): the authorization state the broker loads once at
//! startup. Principals are byte strings; verifying keys are raw 32-byte
//! values; `actions` maps each action to the repeater that owns it;
//! `permissions` says which names an agent may invoke. The `targets` and
//! `secrets` tables belong to a second, locally-executed backend that shares
//! the catalog and the permission table.

use vstd::prelude::*;

use crate::table::{
    lemma_lookup_remove_key, lemma_remove_name_len_pos, names_contain, names_remove, spec_has_key,
    spec_keys_unique, spec_lookup, spec_name_present, spec_names_unique, spec_remove_key,
    spec_remove_name, table_has_key, table_insert, table_remove,
};
use crate::wire::{bytes_eq, find_byte_from, spec_find_from};

verus! {

/// Which request fields a target accepts, refuses, or demands; and, when
/// set, how many placeholder tokens the argv must carry in total.
#[derive(Clone, Debug, PartialEq, Eq)]
pub struct TargetShape {
    pub allow: Vec<Vec<u8>>,
    pub forbid: Vec<Vec<u8>>,
    pub require: Vec<Vec<u8>>,
    pub argv_placeholders: Option<usize>,
}

/// How a conforming request is turned into the command actually run.
#[derive(Clone, Debug, PartialEq, Eq)]
pub struct TargetTransform {
    pub out_command: Vec<u8>,
    pub out_argv_replace: Vec<(Vec<u8>, Vec<u8>)>,
    pub out_env: Vec<(Vec<u8>, Vec<u8>)>,
    pub out_stdin_replace: Vec<(Vec<u8>, Vec<u8>)>,
}

#[derive(Clone, Debug, PartialEq, Eq)]
pub struct TargetDef {
    pub shape: TargetShape,
    pub transform: TargetTransform,
}

/// The sealed authorization state, decrypted once and held in memory.
#[derive(Clone, Debug, PartialEq, Eq)]
pub struct Bunker {
    pub operators: Vec<Vec<u8>>,
    pub agents: Vec<(Vec<u8>, [u8; 32])>,
    pub repeaters: Vec<(Vec<u8>, [u8; 32])>,
    pub actions: Vec<(Vec<u8>, Vec<u8>)>,
    pub permissions: Vec<(Vec<u8>, Vec<Vec<u8>>)>,
    pub targets: Vec<(Vec<u8>, TargetDef)>,
    pub secrets: Vec<(Vec<u8>, Vec<u8>)>,
}

#[derive(Clone, Debug, PartialEq, Eq)]
pub enum BunkerError {
    /// The catalog breaks an invariant; the message names which.
    Bad(&'static str),
    /// A failure whose description is built at run time (used by callers that
    /// parse or seal the catalog).
    BadOwned(String),
}

/// A byte that may appear in a `{token}` reference: ASCII alphanumeric,
/// underscore or hyphen.
pub open spec fn spec_ref_byte_ok(b: u8) -> bool {
    (48 <= b <= 57) || (65 <= b <= 90) || (97 <= b <= 122) || b == 95 || b == 45
}

/// A well-formed reference token: non-empty, every byte admissible.
pub open spec fn spec_token_ok(t: Seq<u8>) -> bool {
    t.len() > 0 && forall|i: int| 0 <= i < t.len() ==> spec_ref_byte_ok(#[trigger] t[i])
}

/// The well-formed `{token}` references found scanning `s` from `pos`: at
/// each step the next `{`, then the next `}` at or past it; the bytes
/// between are the token; scanning resumes past the `}`. A `{` with no
/// closing `}` ends the scan.
pub open spec fn spec_refs_from(s: Seq<u8>, pos: nat) -> Seq<Seq<u8>>
    decreases s.len() - pos,
{
    match spec_find_from(s, 123u8, pos) {
        None => Seq::empty(),
        Some(a) => match spec_find_from(s, 125u8, a) {
            None => Seq::empty(),
            Some(b) => if !(pos <= b && b < s.len()) {
                Seq::empty()
            } else {
                let tok = s.subrange(a + 1 as int, b as int);
                let rest = spec_refs_from(s, (b + 1) as nat);
                if spec_token_ok(tok) {
                    seq![tok] + rest
                } else {
                    rest
                }
            },
        },
    }
}

/// Append to `out` every well-formed `{token}` reference in `s`, in scan
/// order.
pub fn collect_refs_from_string(s: &[u8], out: &mut Vec<Vec<u8>>)
    ensures
        final(out).deep_view() == old(out).deep_view() + spec_refs_from(s@, 0),
{
    let ghost base: Seq<Seq<u8>> = old(out).deep_view();
    let mut pos: usize = 0;
    while pos < s.len()
        invariant
            pos <= s@.len(),
            base == old(out).deep_view(),
            base + spec_refs_from(s@, 0) == out.deep_view() + spec_refs_from(s@, pos as nat),
        decreases s@.len() - pos,
    {
        let a = match find_byte_from(s, 123u8, pos) {
            Some(a) => a,
            None => {
                proof {
                    assert(spec_refs_from(s@, pos as nat) =~~= Seq::<Seq<u8>>::empty());
                    assert(out.deep_view() + spec_refs_from(s@, pos as nat) =~~= out.deep_view());
                }
                return ;
            },
        };
        let b = match find_byte_from(s, 125u8, a) {
            Some(b) => b,
            None => {
                proof {
                    assert(spec_refs_from(s@, pos as nat) =~~= Seq::<Seq<u8>>::empty());
                    assert(out.deep_view() + spec_refs_from(s@, pos as nat) =~~= out.deep_view());
                }
                return ;
            },
        };
        let ghost tok: Seq<u8> = s@.subrange(a + 1, b as int);
        let mut token_ok: bool = b > a + 1;
        let mut i: usize = a + 1;
        while token_ok && i < b
            invariant
                a + 1 <= i <= b <= s@.len(),
                tok == s@.subrange(a + 1, b as int),
                token_ok ==> (b > a + 1 && forall|j: int|
                    0 <= j < i - a - 1 ==> spec_ref_byte_ok(#[trigger] tok[j])),
                !token_ok ==> !spec_token_ok(tok),
            decreases b - i,
        {
            let by = s[i];
            let ok = (48 <= by && by <= 57) || (65 <= by && by <= 90) || (97 <= by && by <= 122)
                || by == 95 || by == 45;
            if !ok {
                proof {
                    assert(tok[i - a - 1] == s@[i as int]);
                }
                token_ok = false;
            }
            i = i + 1;
        }
        let ghost before: Seq<Seq<u8>> = out.deep_view();
        if token_ok {
            proof {
                assert(forall|j: int| 0 <= j < tok.len() ==> spec_ref_byte_ok(#[trigger] tok[j]));
            }
            let t = vstd::slice::slice_to_vec(vstd::slice::slice_subrange(s, a + 1, b));
            out.push(t);
            proof {
                assert(out.deep_view() =~~= before.push(tok));
            }
        }
        proof {
            let rest = spec_refs_from(s@, (b + 1) as nat);
            if spec_token_ok(tok) {
                assert(spec_refs_from(s@, pos as nat) == seq![tok] + rest);
                assert(before.push(tok) + rest =~~= before + (seq![tok] + rest));
            } else {
                assert(spec_refs_from(s@, pos as nat) == rest);
            }
        }
        pos = b + 1;
    }
    proof {
        assert(spec_refs_from(s@, pos as nat) =~~= Seq::<Seq<u8>>::empty());
        assert(out.deep_view() + spec_refs_from(s@, pos as nat) =~~= out.deep_view());
    }
}

/// The references found in the values of a pair table (and, when asked, in
/// its keys too), table order kept.
pub open spec fn spec_pairs_refs(ps: Seq<(Vec<u8>, Vec<u8>)>, keys_too: bool) -> Seq<Seq<u8>>
    decreases ps.len(),
{
    if ps.len() == 0 {
        Seq::empty()
    } else {
        (if keys_too {
            spec_refs_from(ps[0].0@, 0) + spec_refs_from(ps[0].1@, 0)
        } else {
            spec_refs_from(ps[0].1@, 0)
        }) + spec_pairs_refs(ps.drop_first(), keys_too)
    }
}

/// Every `{token}` reference a target definition makes: in its command, its
/// argv replacements' values, its environment keys and values, and its stdin
/// replacements' values.
pub open spec fn spec_target_refs(def: TargetDef) -> Seq<Seq<u8>> {
    spec_refs_from(def.transform.out_command@, 0) + spec_pairs_refs(
        def.transform.out_argv_replace@,
        false,
    ) + spec_pairs_refs(def.transform.out_env@, true) + spec_pairs_refs(
        def.transform.out_stdin_replace@,
        false,
    )
}

/// Gather every secret reference a target definition makes.
pub fn collect_secret_refs(def: &TargetDef) -> (r: Vec<Vec<u8>>)
    ensures
        r.deep_view() == spec_target_refs(*def),
{
    let mut out: Vec<Vec<u8>> = Vec::new();
    collect_refs_from_string(def.transform.out_command.as_slice(), &mut out);
    pairs_refs(&def.transform.out_argv_replace, false, &mut out);
    pairs_refs(&def.transform.out_env, true, &mut out);
    pairs_refs(&def.transform.out_stdin_replace, false, &mut out);
    proof {
        assert(out.deep_view() =~~= spec_target_refs(*def));
    }
    out
}

/// Append the references of a pair table to `out`.
fn pairs_refs(ps: &Vec<(Vec<u8>, Vec<u8>)>, keys_too: bool, out: &mut Vec<Vec<u8>>)
    ensures
        final(out).deep_view() == old(out).deep_view() + spec_pairs_refs(ps@, keys_too),
{
    let ghost base: Seq<Seq<u8>> = old(out).deep_view();
    let mut i: usize = 0;
    proof {
        assert(ps@.skip(0) =~= ps@);
    }
    while i < ps.len()
        invariant
            i <= ps@.len(),
            base == old(out).deep_view(),
            base + spec_pairs_refs(ps@, keys_too) == out.deep_view() + spec_pairs_refs(
                ps@.skip(i as int),
                keys_too,
            ),
        decreases ps@.len() - i,
    {
        proof {
            assert(ps@.skip(i as int)[0] == ps@[i as int]);
            assert(ps@.skip(i as int).drop_first() =~= ps@.skip(i + 1));
        }
        let ghost mid: Seq<Seq<u8>> = out.deep_view();
        if keys_too {
            collect_refs_from_string(ps[i].0.as_slice(), out);
        }
        collect_refs_from_string(ps[i].1.as_slice(), out);
        proof {
            let here = if keys_too {
                spec_refs_from(ps@[i as int].0@, 0) + spec_refs_from(ps@[i as int].1@, 0)
            } else {
                spec_refs_from(ps@[i as int].1@, 0)
            };
            assert(out.deep_view() =~~= mid + here);
            assert(out.deep_view() + spec_pairs_refs(ps@.skip(i + 1), keys_too) =~~= mid
                + spec_pairs_refs(ps@.skip(i as int), keys_too));
        }
        i = i + 1;
    }
    proof {
        assert(ps@.skip(ps@.len() as int).len() == 0);
        assert(out.deep_view() + spec_pairs_refs(ps@.skip(ps@.len() as int), keys_too)
            =~~= out.deep_view());
    }
}

/// The byte string `command`.
pub open spec fn spec_field_command() -> Seq<u8> {
    seq![99u8, 111u8, 109u8, 109u8, 97u8, 110u8, 100u8]
}

/// The byte string `argv`.
pub open spec fn spec_field_argv() -> Seq<u8> {
    seq![97u8, 114u8, 103u8, 118u8]
}

/// The byte string `env`.
pub open spec fn spec_field_env() -> Seq<u8> {
    seq![101u8, 110u8, 118u8]
}

/// The byte string `stdin`.
pub open spec fn spec_field_stdin() -> Seq<u8> {
    seq![115u8, 116u8, 100u8, 105u8, 110u8]
}

/// The four request fields a target shape may speak of.
pub open spec fn spec_known_shape_field(f: Seq<u8>) -> bool {
    f == spec_field_command() || f == spec_field_argv() || f == spec_field_env() || f
        == spec_field_stdin()
}

/// Whether `f` is one of the four known shape fields.
pub fn is_known_shape_field(f: &[u8]) -> (r: bool)
    ensures
        r == spec_known_shape_field(f@),
{
    let command: Vec<u8> = vec![99u8, 111u8, 109u8, 109u8, 97u8, 110u8, 100u8];
    let argv: Vec<u8> = vec![97u8, 114u8, 103u8, 118u8];
    let env: Vec<u8> = vec![101u8, 110u8, 118u8];
    let stdin: Vec<u8> = vec![115u8, 116u8, 100u8, 105u8, 110u8];
    proof {
        assert(command@ =~= spec_field_command());
        assert(argv@ =~= spec_field_argv());
        assert(env@ =~= spec_field_env());
        assert(stdin@ =~= spec_field_stdin());
    }
    bytes_eq(f, command.as_slice()) || bytes_eq(f, argv.as_slice()) || bytes_eq(
        f,
        env.as_slice(),
    ) || bytes_eq(f, stdin.as_slice())
}

/// Nothing in `s` but ASCII whitespace.
pub open spec fn spec_blank(s: Seq<u8>) -> bool {
    forall|i: int|
        0 <= i < s.len() ==> ((#[trigger] s[i]) == 32 || s[i] == 9 || s[i] == 10 || s[i] == 13)
}

/// Whether `s` holds nothing but ASCII whitespace.
pub fn is_blank(s: &[u8]) -> (r: bool)
    ensures
        r == spec_blank(s@),
{
    let mut i: usize = 0;
    while i < s.len()
        invariant
            i <= s@.len(),
            forall|j: int|
                0 <= j < i ==> ((#[trigger] s@[j]) == 32 || s@[j] == 9 || s@[j] == 10 || s@[j]
                    == 13),
        decreases s@.len() - i,
    {
        let b = s[i];
        if !(b == 32 || b == 9 || b == 10 || b == 13) {
            return false;
        }
        i = i + 1;
    }
    true
}

/// Every name of a shape list is a known field.
pub open spec fn spec_shape_fields_known(s: Seq<Vec<u8>>) -> bool {
    forall|i: int| 0 <= i < s.len() ==> spec_known_shape_field((#[trigger] s[i])@)
}

/// One target definition is sound against the secrets table: its command is
/// not blank, its shape names only known fields, no field is both required
/// and forbidden, and every `{token}` reference resolves to a secret.
pub open spec fn spec_target_def_valid(def: TargetDef, secrets: Seq<(Vec<u8>, Vec<u8>)>) -> bool {
    &&& !spec_blank(def.transform.out_command@)
    &&& spec_shape_fields_known(def.shape.allow@)
    &&& spec_shape_fields_known(def.shape.forbid@)
    &&& spec_shape_fields_known(def.shape.require@)
    &&& forall|i: int|
        0 <= i < def.shape.require@.len() ==> !spec_name_present(
            def.shape.forbid@,
            (#[trigger] def.shape.require@[i])@,
        )
    &&& forall|i: int|
        0 <= i < spec_target_refs(def).len() ==> spec_has_key(
            secrets,
            #[trigger] spec_target_refs(def)[i],
        )
}

/// The catalog's invariants: a non-empty operator set; each table a true
/// mapping (keys unique); every action owned by a known repeater; every
/// permission granted to a known agent, over known actions or targets; and
/// every target definition sound.
pub open spec fn spec_bunker_valid(b: Bunker) -> bool {
    &&& b.operators@.len() > 0
    &&& spec_names_unique(b.operators@)
    &&& spec_keys_unique(b.agents@)
    &&& spec_keys_unique(b.repeaters@)
    &&& spec_keys_unique(b.actions@)
    &&& spec_keys_unique(b.permissions@)
    &&& spec_keys_unique(b.targets@)
    &&& spec_keys_unique(b.secrets@)
    &&& forall|i: int|
        0 <= i < b.actions@.len() ==> spec_has_key(b.repeaters@, (#[trigger] b.actions@[i]).1@)
    &&& forall|i: int|
        0 <= i < b.permissions@.len() ==> spec_has_key(
            b.agents@,
            (#[trigger] b.permissions@[i]).0@,
        )
    &&& forall|i: int, j: int|
        0 <= i < b.permissions@.len() && 0 <= j < b.permissions@[i].1@.len() ==> {
            let n = (#[trigger] b.permissions@[i].1@[j])@;
            spec_has_key(b.actions@, n) || spec_has_key(b.targets@, n)
        }
    &&& forall|i: int| 0 <= i < b.targets@.len() ==> ((#[trigger] b.targets@[i]).0@.len() > 0)
    &&& forall|i: int|
        0 <= i < b.targets@.len() ==> spec_target_def_valid(
            (#[trigger] b.targets@[i]).1,
            b.secrets@,
        )
}

/// Every name of a shape list is a known field.
fn shape_fields_known(s: &Vec<Vec<u8>>) -> (r: bool)
    ensures
        r == spec_shape_fields_known(s@),
{
    let mut i: usize = 0;
    while i < s.len()
        invariant
            i <= s@.len(),
            forall|j: int| 0 <= j < i ==> spec_known_shape_field((#[trigger] s@[j])@),
        decreases s@.len() - i,
    {
        if !is_known_shape_field(s[i].as_slice()) {
            return false;
        }
        i = i + 1;
    }
    true
}

impl Bunker {
    /// An empty catalog. It does not satisfy the invariants until at least
    /// one operator is added.
    pub fn new() -> (r: Bunker)
        ensures
            r.operators@.len() == 0,
            r.agents@.len() == 0,
            r.repeaters@.len() == 0,
            r.actions@.len() == 0,
            r.permissions@.len() == 0,
            r.targets@.len() == 0,
            r.secrets@.len() == 0,
    {
        Bunker {
            operators: Vec::new(),
            agents: Vec::new(),
            repeaters: Vec::new(),
            actions: Vec::new(),
            permissions: Vec::new(),
            targets: Vec::new(),
            secrets: Vec::new(),
        }
    }

    /// Check every catalog invariant; `Ok` exactly when all hold.
    pub fn validate(&self) -> (r: Result<(), BunkerError>)
        ensures
            r is Ok <==> spec_bunker_valid(*self),
    {
        if self.operators.len() == 0 {
            return Err(BunkerError::Bad("no operators"));
        }
        if !(crate::table::names_unique(&self.operators) && crate::table::table_keys_unique(
            &self.agents,
        ) && crate::table::table_keys_unique(&self.repeaters) && crate::table::table_keys_unique(
            &self.actions,
        ) && crate::table::table_keys_unique(&self.permissions)
            && crate::table::table_keys_unique(&self.targets) && crate::table::table_keys_unique(
            &self.secrets,
        )) {
            return Err(BunkerError::Bad("duplicate keys"));
        }
        let mut i: usize = 0;
        while i < self.actions.len()
            invariant
                i <= self.actions@.len(),
                forall|j: int|
                    0 <= j < i ==> spec_has_key(
                        self.repeaters@,
                        (#[trigger] self.actions@[j]).1@,
                    ),
            decreases self.actions@.len() - i,
        {
            if !table_has_key(&self.repeaters, self.actions[i].1.as_slice()) {
                return Err(BunkerError::Bad("action references unknown repeater"));
            }
            i = i + 1;
        }
        let mut i: usize = 0;
        while i < self.permissions.len()
            invariant
                i <= self.permissions@.len(),
                forall|j: int|
                    0 <= j < i ==> spec_has_key(
                        self.agents@,
                        (#[trigger] self.permissions@[j]).0@,
                    ),
                forall|j: int, k: int|
                    0 <= j < i && 0 <= k < self.permissions@[j].1@.len() ==> {
                        let n = (#[trigger] self.permissions@[j].1@[k])@;
                        spec_has_key(self.actions@, n) || spec_has_key(self.targets@, n)
                    },
            decreases self.permissions@.len() - i,
        {
            if !table_has_key(&self.agents, self.permissions[i].0.as_slice()) {
                return Err(BunkerError::Bad("permission references unknown agent"));
            }
            let allowed = &self.permissions[i].1;
            let mut k: usize = 0;
            while k < allowed.len()
                invariant
                    k <= allowed@.len(),
                    allowed@ == self.permissions@[i as int].1@,
                    i < self.permissions@.len(),
                    forall|m: int|
                        0 <= m < k ==> {
                            let n = (#[trigger] allowed@[m])@;
                            spec_has_key(self.actions@, n) || spec_has_key(self.targets@, n)
                        },
                decreases allowed@.len() - k,
            {
                if !(table_has_key(&self.actions, allowed[k].as_slice()) || table_has_key(
                    &self.targets,
                    allowed[k].as_slice(),
                )) {
                    return Err(BunkerError::Bad("permission references unknown action or target"));
                }
                k = k + 1;
            }
            i = i + 1;
        }
        let mut i: usize = 0;
        while i < self.targets.len()
            invariant
                i <= self.targets@.len(),
                forall|j: int| 0 <= j < i ==> ((#[trigger] self.targets@[j]).0@.len() > 0),
                forall|j: int|
                    0 <= j < i ==> spec_target_def_valid(
                        (#[trigger] self.targets@[j]).1,
                        self.secrets@,
                    ),
            decreases self.targets@.len() - i,
        {
            if self.targets[i].0.len() == 0 {
                return Err(BunkerError::Bad("empty target name"));
            }
            let def = &self.targets[i].1;
            if is_blank(def.transform.out_command.as_slice()) {
                return Err(BunkerError::Bad("target out_command is empty"));
            }
            if !(shape_fields_known(&def.shape.allow) && shape_fields_known(&def.shape.forbid)
                && shape_fields_known(&def.shape.require)) {
                return Err(BunkerError::Bad("target shape has unknown field"));
            }
            let mut k: usize = 0;
            while k < def.shape.require.len()
                invariant
                    k <= def.shape.require@.len(),
                    i < self.targets@.len(),
                    def == &self.targets@[i as int].1,
                    forall|m: int|
                        0 <= m < k ==> !spec_name_present(
                            def.shape.forbid@,
                            (#[trigger] def.shape.require@[m])@,
                        ),
                decreases def.shape.require@.len() - k,
            {
                if names_contain(&def.shape.forbid, def.shape.require[k].as_slice()) {
                    return Err(
                        BunkerError::Bad(
                            "target shape conflicts: field both required and forbidden",
                        ),
                    );
                }
                k = k + 1;
            }
            let refs = collect_secret_refs(def);
            let mut k: usize = 0;
            while k < refs.len()
                invariant
                    k <= refs@.len(),
                    i < self.targets@.len(),
                    def == &self.targets@[i as int].1,
                    refs.deep_view() == spec_target_refs(*def),
                    forall|m: int|
                        0 <= m < k ==> spec_has_key(
                            self.secrets@,
                            #[trigger] spec_target_refs(*def)[m],
                        ),
                decreases refs@.len() - k,
            {
                proof {
                    assert(refs.deep_view()[k as int] == refs@[k as int]@);
                }
                if !table_has_key(&self.secrets, refs[k].as_slice()) {
                    return Err(BunkerError::Bad("target references unknown secret"));
                }
                k = k + 1;
            }
            i = i + 1;
        }
        Ok(())
    }
}

/// Whether `perms` lets `a` invoke `n`: the first entry keyed `a` lists `n`.
pub open spec fn spec_perm_allows(
    perms: Seq<(Vec<u8>, Vec<Vec<u8>>)>,
    a: Seq<u8>,
    n: Seq<u8>,
) -> bool {
    match spec_lookup(perms, a) {
        Some(l) => spec_name_present(l@, n),
        None => false,
    }
}

impl Bunker {
    /// Add an operator recipient; adding one already present changes
    /// nothing.
    pub fn add_operator(&mut self, op: &[u8])
        ensures
            forall|n: Seq<u8>|
                spec_name_present(final(self).operators@, n) <==> (spec_name_present(
                    old(self).operators@,
                    n,
                ) || n == op@),
            spec_names_unique(old(self).operators@) ==> spec_names_unique(
                final(self).operators@,
            ),
            final(self).agents@ == old(self).agents@,
            final(self).repeaters@ == old(self).repeaters@,
            final(self).actions@ == old(self).actions@,
            final(self).permissions@ == old(self).permissions@,
            final(self).targets@ == old(self).targets@,
            final(self).secrets@ == old(self).secrets@,
    {
        if !names_contain(&self.operators, op) {
            let ghost before: Seq<Vec<u8>> = self.operators@;
            self.operators.push(vstd::slice::slice_to_vec(op));
            proof {
                assert forall|n: Seq<u8>|
                    spec_name_present(self.operators@, n) <==> (spec_name_present(before, n) || n
                        == op@) by {
                    if spec_name_present(before, n) {
                        let i = choose|i: int|
                            0 <= i < before.len() && (#[trigger] before[i])@ == n;
                        assert(self.operators@[i]@ == n);
                    }
                    if n == op@ {
                        assert(self.operators@[before.len() as int]@ == n);
                    }
                    if spec_name_present(self.operators@, n) {
                        let i = choose|i: int|
                            0 <= i < self.operators@.len() && (#[trigger] self.operators@[i])@
                                == n;
                        if i < before.len() {
                            assert(before[i]@ == n);
                        }
                    }
                }
            }
        }
    }

    /// Remove an operator. Refused when the operator is not present, and
    /// when it is the only one left: the operator set may never empty.
    pub fn remove_operator(&mut self, op: &[u8]) -> (r: Result<(), BunkerError>)
        ensures
            final(self).agents@ == old(self).agents@,
            final(self).repeaters@ == old(self).repeaters@,
            final(self).actions@ == old(self).actions@,
            final(self).permissions@ == old(self).permissions@,
            final(self).targets@ == old(self).targets@,
            final(self).secrets@ == old(self).secrets@,
            !spec_name_present(old(self).operators@, op@) ==> (r == Err::<(), BunkerError>(
                BunkerError::Bad("operator not present"),
            ) && final(self).operators@ == old(self).operators@),
            (spec_name_present(old(self).operators@, op@) && spec_remove_name(
                old(self).operators@,
                op@,
            ).len() == 0) ==> (r == Err::<(), BunkerError>(
                BunkerError::Bad("cannot remove final operator"),
            ) && final(self).operators@ == old(self).operators@),
            (spec_name_present(old(self).operators@, op@) && spec_remove_name(
                old(self).operators@,
                op@,
            ).len() > 0) ==> (r is Ok && final(self).operators@ == spec_remove_name(
                old(self).operators@,
                op@,
            )),
    {
        if !names_contain(&self.operators, op) {
            return Err(BunkerError::Bad("operator not present"));
        }
        if !crate::table::names_other_than(&self.operators, op) {
            proof {
                lemma_remove_name_len_pos(self.operators@, op@);
            }
            return Err(BunkerError::Bad("cannot remove final operator"));
        }
        proof {
            lemma_remove_name_len_pos(self.operators@, op@);
        }
        names_remove(&mut self.operators, op);
        Ok(())
    }

    /// Bind an agent principal to its verifying key, replacing any earlier
    /// binding.
    pub fn add_agent(&mut self, principal: Vec<u8>, key: [u8; 32])
        ensures
            forall|k: Seq<u8>| #[trigger]
                spec_lookup(final(self).agents@, k) == if k == principal@ {
                    Some(key)
                } else {
                    spec_lookup(old(self).agents@, k)
                },
            final(self).operators@ == old(self).operators@,
            final(self).repeaters@ == old(self).repeaters@,
            final(self).actions@ == old(self).actions@,
            final(self).permissions@ == old(self).permissions@,
            final(self).targets@ == old(self).targets@,
            final(self).secrets@ == old(self).secrets@,
    {
        let ghost before = self.agents@;
        let ghost p: Seq<u8> = principal@;
        table_insert(&mut self.agents, principal, key);
        proof {
            assert forall|k: Seq<u8>| #[trigger]
                spec_lookup(self.agents@, k) == if k == p {
                    Some(key)
                } else {
                    spec_lookup(before, k)
                } by {
                lemma_lookup_remove_key(before, p, k);
                assert(self.agents@.drop_first() =~= spec_remove_key(before, p));
            }
        }
    }

    /// Drop an agent, and with it the permissions granted to it.
    pub fn remove_agent(&mut self, principal: &[u8])
        ensures
            forall|k: Seq<u8>| #[trigger]
                spec_lookup(final(self).agents@, k) == if k == principal@ {
                    None
                } else {
                    spec_lookup(old(self).agents@, k)
                },
            forall|k: Seq<u8>| #[trigger]
                spec_lookup(final(self).permissions@, k) == if k == principal@ {
                    None
                } else {
                    spec_lookup(old(self).permissions@, k)
                },
            final(self).operators@ == old(self).operators@,
            final(self).repeaters@ == old(self).repeaters@,
            final(self).actions@ == old(self).actions@,
            final(self).targets@ == old(self).targets@,
            final(self).secrets@ == old(self).secrets@,
    {
        let ghost a0 = self.agents@;
        let ghost p0 = self.permissions@;
        table_remove(&mut self.agents, principal);
        table_remove(&mut self.permissions, principal);
        proof {
            assert forall|k: Seq<u8>| true implies #[trigger] spec_lookup(self.agents@, k) == (
            if k == principal@ {
                None
            } else {
                spec_lookup(a0, k)
            }) by {
                lemma_lookup_remove_key(a0, principal@, k);
            }
            assert forall|k: Seq<u8>| true implies #[trigger] spec_lookup(self.permissions@, k)
                == (if k == principal@ {
                None
            } else {
                spec_lookup(p0, k)
            }) by {
                lemma_lookup_remove_key(p0, principal@, k);
            }
        }
    }

    /// Bind a repeater principal to its verifying key, replacing any earlier
    /// binding.
    pub fn add_repeater(&mut self, principal: Vec<u8>, key: [u8; 32])
        ensures
            forall|k: Seq<u8>| #[trigger]
                spec_lookup(final(self).repeaters@, k) == if k == principal@ {
                    Some(key)
                } else {
                    spec_lookup(old(self).repeaters@, k)
                },
            final(self).operators@ == old(self).operators@,
            final(self).agents@ == old(self).agents@,
            final(self).actions@ == old(self).actions@,
            final(self).permissions@ == old(self).permissions@,
            final(self).targets@ == old(self).targets@,
            final(self).secrets@ == old(self).secrets@,
    {
        let ghost before = self.repeaters@;
        let ghost p: Seq<u8> = principal@;
        table_insert(&mut self.repeaters, principal, key);
        proof {
            assert forall|k: Seq<u8>| #[trigger]
                spec_lookup(self.repeaters@, k) == if k == p {
                    Some(key)
                } else {
                    spec_lookup(before, k)
                } by {
                lemma_lookup_remove_key(before, p, k);
                assert(self.repeaters@.drop_first() =~= spec_remove_key(before, p));
            }
        }
    }

    /// Drop a repeater. An action left pointing at it makes the catalog
    /// invalid, which the re-validation before sealing refuses.
    pub fn remove_repeater(&mut self, principal: &[u8])
        ensures
            forall|k: Seq<u8>| #[trigger]
                spec_lookup(final(self).repeaters@, k) == if k == principal@ {
                    None
                } else {
                    spec_lookup(old(self).repeaters@, k)
                },
            final(self).operators@ == old(self).operators@,
            final(self).agents@ == old(self).agents@,
            final(self).actions@ == old(self).actions@,
            final(self).permissions@ == old(self).permissions@,
            final(self).targets@ == old(self).targets@,
            final(self).secrets@ == old(self).secrets@,
    {
        let ghost before = self.repeaters@;
        table_remove(&mut self.repeaters, principal);
        proof {
            assert forall|k: Seq<u8>| true implies #[trigger] spec_lookup(self.repeaters@, k)
                == (if k == principal@ {
                None
            } else {
                spec_lookup(before, k)
            }) by {
                lemma_lookup_remove_key(before, principal@, k);
            }
        }
    }

    /// Give an action an owning repeater, replacing any earlier owner.
    pub fn register_action(&mut self, action: Vec<u8>, owner: Vec<u8>)
        ensures
            forall|k: Seq<u8>| #[trigger]
                spec_lookup(final(self).actions@, k) == if k == action@ {
                    Some(owner)
                } else {
                    spec_lookup(old(self).actions@, k)
                },
            final(self).operators@ == old(self).operators@,
            final(self).agents@ == old(self).agents@,
            final(self).repeaters@ == old(self).repeaters@,
            final(self).permissions@ == old(self).permissions@,
            final(self).targets@ == old(self).targets@,
            final(self).secrets@ == old(self).secrets@,
    {
        let ghost before = self.actions@;
        let ghost a: Seq<u8> = action@;
        table_insert(&mut self.actions, action, owner);
        proof {
            assert forall|k: Seq<u8>| #[trigger]
                spec_lookup(self.actions@, k) == if k == a {
                    Some(owner)
                } else {
                    spec_lookup(before, k)
                } by {
                lemma_lookup_remove_key(before, a, k);
                assert(self.actions@.drop_first() =~= spec_remove_key(before, a));
            }
        }
    }

    /// Drop an action from the registry.
    pub fn unregister_action(&mut self, action: &[u8])
        ensures
            forall|k: Seq<u8>| #[trigger]
                spec_lookup(final(self).actions@, k) == if k == action@ {
                    None
                } else {
                    spec_lookup(old(self).actions@, k)
                },
            final(self).operators@ == old(self).operators@,
            final(self).agents@ == old(self).agents@,
            final(self).repeaters@ == old(self).repeaters@,
            final(self).permissions@ == old(self).permissions@,
            final(self).targets@ == old(self).targets@,
            final(self).secrets@ == old(self).secrets@,
    {
        let ghost before = self.actions@;
        table_remove(&mut self.actions, action);
        proof {
            assert forall|k: Seq<u8>| true implies #[trigger] spec_lookup(self.actions@, k) == (
            if k == action@ {
                None
            } else {
                spec_lookup(before, k)
            }) by {
                lemma_lookup_remove_key(before, action@, k);
            }
        }
    }

    /// Let `agent` invoke `name`; grants already made are kept.
    pub fn grant_permission(&mut self, agent: &[u8], name: &[u8])
        ensures
            forall|a: Seq<u8>, n: Seq<u8>|
                spec_perm_allows(final(self).permissions@, a, n) <==> (spec_perm_allows(
                    old(self).permissions@,
                    a,
                    n,
                ) || (a == agent@ && n == name@)),
            final(self).operators@ == old(self).operators@,
            final(self).agents@ == old(self).agents@,
            final(self).repeaters@ == old(self).repeaters@,
            final(self).actions@ == old(self).actions@,
            final(self).targets@ == old(self).targets@,
            final(self).secrets@ == old(self).secrets@,
    {
        let ghost before = self.permissions@;
        let ghost oldlist: Option<Vec<Vec<u8>>> = spec_lookup(before, agent@);
        let list: Vec<Vec<u8>> = match crate::table::table_take(&mut self.permissions, agent) {
            Some(mut l) => {
                let ghost l0 = l@;
                if !names_contain(&l, name) {
                    l.push(vstd::slice::slice_to_vec(name));
                    proof {
                        assert forall|n: Seq<u8>|
                            spec_name_present(l@, n) <==> (spec_name_present(l0, n) || n
                                == name@) by {
                            if spec_name_present(l0, n) {
                                let i = choose|i: int|
                                    0 <= i < l0.len() && (#[trigger] l0[i])@ == n;
                                assert(l@[i]@ == n);
                            }
                            if n == name@ {
                                assert(l@[l0.len() as int]@ == n);
                            }
                            if spec_name_present(l@, n) {
                                let i = choose|i: int|
                                    0 <= i < l@.len() && (#[trigger] l@[i])@ == n;
                                if i < l0.len() {
                                    assert(l0[i]@ == n);
                                }
                            }
                        }
                    }
                }
                l
            },
            None => {
                let mut l: Vec<Vec<u8>> = Vec::new();
                l.push(vstd::slice::slice_to_vec(name));
                proof {
                    assert forall|n: Seq<u8>| spec_name_present(l@, n) <==> n == name@ by {
                        if spec_name_present(l@, n) {
                            let i = choose|i: int| 0 <= i < l@.len() && (#[trigger] l@[i])@ == n;
                        }
                        if n == name@ {
                            assert(l@[0]@ == n);
                        }
                    }
                }
                l
            },
        };
        let ghost list_v = list@;
        table_insert(&mut self.permissions, vstd::slice::slice_to_vec(agent), list);
        proof {
            assert forall|a: Seq<u8>, n: Seq<u8>|
                spec_perm_allows(self.permissions@, a, n) <==> (spec_perm_allows(before, a, n)
                    || (a == agent@ && n == name@)) by {
                lemma_lookup_remove_key(before, agent@, a);
                lemma_lookup_remove_key(spec_remove_key(before, agent@), agent@, a);
                assert(self.permissions@.drop_first() =~= spec_remove_key(
                    spec_remove_key(before, agent@),
                    agent@,
                ));
                assert(self.permissions@[0].0@ == agent@);
                if a == agent@ {
                    assert(spec_lookup(self.permissions@, a) matches Some(lv) && lv@ == list_v);
                }
            }
        }
    }

    /// Withdraw `name` from `agent`; other grants are kept, and an agent
    /// with no grants left keeps its empty entry.
    pub fn revoke_permission(&mut self, agent: &[u8], name: &[u8])
        ensures
            forall|a: Seq<u8>, n: Seq<u8>|
                spec_perm_allows(final(self).permissions@, a, n) <==> (spec_perm_allows(
                    old(self).permissions@,
                    a,
                    n,
                ) && !(a == agent@ && n == name@)),
            final(self).operators@ == old(self).operators@,
            final(self).agents@ == old(self).agents@,
            final(self).repeaters@ == old(self).repeaters@,
            final(self).actions@ == old(self).actions@,
            final(self).targets@ == old(self).targets@,
            final(self).secrets@ == old(self).secrets@,
    {
        let ghost before = self.permissions@;
        match crate::table::table_take(&mut self.permissions, agent) {
            Some(mut l) => {
                let ghost l0 = l@;
                names_remove(&mut l, name);
                let ghost list_v = l@;
                table_insert(&mut self.permissions, vstd::slice::slice_to_vec(agent), l);
                proof {
                    assert forall|a: Seq<u8>, n: Seq<u8>|
                        spec_perm_allows(self.permissions@, a, n) <==> (spec_perm_allows(
                            before,
                            a,
                            n,
                        ) && !(a == agent@ && n == name@)) by {
                        lemma_lookup_remove_key(before, agent@, a);
                        lemma_lookup_remove_key(spec_remove_key(before, agent@), agent@, a);
                        assert(self.permissions@.drop_first() =~= spec_remove_key(
                            spec_remove_key(before, agent@),
                            agent@,
                        ));
                        assert(self.permissions@[0].0@ == agent@);
                        crate::table::lemma_name_present_remove(l0, name@, n);
                        if a == agent@ {
                            assert(spec_lookup(self.permissions@, a) matches Some(lv) && lv@
                                == list_v);
                        }
                    }
                }
            },
            None => {
                proof {
                    assert(self.permissions@ =~= spec_remove_key(before, agent@));
                    assert forall|a: Seq<u8>, n: Seq<u8>|
                        spec_perm_allows(self.permissions@, a, n) <==> (spec_perm_allows(
                            before,
                            a,
                            n,
                        ) && !(a == agent@ && n == name@)) by {
                        lemma_lookup_remove_key(before, agent@, a);
                    }
                }
            },
        }
    }

    /// Bind a secret name to its value, replacing any earlier value.
    pub fn add_secret(&mut self, name: Vec<u8>, value: Vec<u8>)
        ensures
            forall|k: Seq<u8>| #[trigger]
                spec_lookup(final(self).secrets@, k) == if k == name@ {
                    Some(value)
                } else {
                    spec_lookup(old(self).secrets@, k)
                },
            final(self).operators@ == old(self).operators@,
            final(self).agents@ == old(self).agents@,
            final(self).repeaters@ == old(self).repeaters@,
            final(self).actions@ == old(self).actions@,
            final(self).permissions@ == old(self).permissions@,
            final(self).targets@ == old(self).targets@,
    {
        let ghost before = self.secrets@;
        let ghost nm: Seq<u8> = name@;
        table_insert(&mut self.secrets, name, value);
        proof {
            assert forall|k: Seq<u8>| #[trigger]
                spec_lookup(self.secrets@, k) == if k == nm {
                    Some(value)
                } else {
                    spec_lookup(before, k)
                } by {
                lemma_lookup_remove_key(before, nm, k);
                assert(self.secrets@.drop_first() =~= spec_remove_key(before, nm));
            }
        }
    }

    /// Drop a secret. A target still referencing it makes the catalog
    /// invalid, which the re-validation before sealing refuses.
    pub fn remove_secret(&mut self, name: &[u8])
        ensures
            forall|k: Seq<u8>| #[trigger]
                spec_lookup(final(self).secrets@, k) == if k == name@ {
                    None
                } else {
                    spec_lookup(old(self).secrets@, k)
                },
            final(self).operators@ == old(self).operators@,
            final(self).agents@ == old(self).agents@,
            final(self).repeaters@ == old(self).repeaters@,
            final(self).actions@ == old(self).actions@,
            final(self).permissions@ == old(self).permissions@,
            final(self).targets@ == old(self).targets@,
    {
        let ghost before = self.secrets@;
        table_remove(&mut self.secrets, name);
        proof {
            assert forall|k: Seq<u8>| true implies #[trigger] spec_lookup(self.secrets@, k) == (
            if k == name@ {
                None
            } else {
                spec_lookup(before, k)
            }) by {
                lemma_lookup_remove_key(before, name@, k);
            }
        }
    }

    /// Bind a target name to its definition, replacing any earlier one.
    pub fn add_target(&mut self, name: Vec<u8>, def: TargetDef)
        ensures
            forall|k: Seq<u8>| #[trigger]
                spec_lookup(final(self).targets@, k) == if k == name@ {
                    Some(def)
                } else {
                    spec_lookup(old(self).targets@, k)
                },
            final(self).operators@ == old(self).operators@,
            final(self).agents@ == old(self).agents@,
            final(self).repeaters@ == old(self).repeaters@,
            final(self).actions@ == old(self).actions@,
            final(self).permissions@ == old(self).permissions@,
            final(self).secrets@ == old(self).secrets@,
    {
        let ghost before = self.targets@;
        let ghost nm: Seq<u8> = name@;
        table_insert(&mut self.targets, name, def);
        proof {
            assert forall|k: Seq<u8>| #[trigger]
                spec_lookup(self.targets@, k) == if k == nm {
                    Some(def)
                } else {
                    spec_lookup(before, k)
                } by {
                lemma_lookup_remove_key(before, nm, k);
                assert(self.targets@.drop_first() =~= spec_remove_key(before, nm));
            }
        }
    }

    /// Drop a target, and scrub its name from every permission list.
    pub fn remove_target(&mut self, name: &[u8])
        ensures
            forall|k: Seq<u8>| #[trigger]
                spec_lookup(final(self).targets@, k) == if k == name@ {
                    None
                } else {
                    spec_lookup(old(self).targets@, k)
                },
            final(self).permissions@.len() == old(self).permissions@.len(),
            forall|i: int|
                0 <= i < old(self).permissions@.len() ==> ((#[trigger] final(self).permissions@[i]).0@
                    == old(self).permissions@[i].0@ && final(self).permissions@[i].1@
                    == spec_remove_name(old(self).permissions@[i].1@, name@)),
            final(self).operators@ == old(self).operators@,
            final(self).agents@ == old(self).agents@,
            final(self).repeaters@ == old(self).repeaters@,
            final(self).actions@ == old(self).actions@,
            final(self).secrets@ == old(self).secrets@,
    {
        let ghost before = self.targets@;
        table_remove(&mut self.targets, name);
        proof {
            assert forall|k: Seq<u8>| true implies #[trigger] spec_lookup(self.targets@, k) == (
            if k == name@ {
                None
            } else {
                spec_lookup(before, k)
            }) by {
                lemma_lookup_remove_key(before, name@, k);
            }
        }
        let ghost p0 = self.permissions@;
        let ghost t1 = self.targets@;
        let n = self.permissions.len();
        let mut rebuilt: Vec<(Vec<u8>, Vec<Vec<u8>>)> = Vec::new();
        let mut i: usize = 0;
        proof {
            assert(self.permissions@ =~= p0.skip(0));
        }
        while i < n
            invariant
                i <= n,
                n == p0.len(),
                p0 == old(self).permissions@,
                self.targets@ == t1,
                t1 == spec_remove_key(old(self).targets@, name@),
                self.operators@ == old(self).operators@,
                self.agents@ == old(self).agents@,
                self.repeaters@ == old(self).repeaters@,
                self.actions@ == old(self).actions@,
                self.secrets@ == old(self).secrets@,
                self.permissions@ == p0.skip(i as int),
                rebuilt@.len() == i as int,
                forall|j: int|
                    0 <= j < i ==> ((#[trigger] rebuilt@[j]).0@ == p0[j].0@ && rebuilt@[j].1@
                        == spec_remove_name(p0[j].1@, name@)),
            decreases n - i,
        {
            proof {
                assert(p0.skip(i as int)[0] == p0[i as int]);
            }
            let mut entry = self.permissions.remove(0);
            proof {
                assert(self.permissions@ =~= p0.skip(i + 1));
            }
            names_remove(&mut entry.1, name);
            rebuilt.push(entry);
            i = i + 1;
        }
        self.permissions = rebuilt;
    }
}

} // verus!
