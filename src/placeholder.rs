//! Placeholder handling for override values: the vendor syntax `${env.NAME}` is
//! rewritten to the canonical `${NAME}`, which is then expanded against an
//! environment table.
use vstd::prelude::*;

use crate::config::ConfigError;
use crate::text::{chars_of, string_of};

verus! {

/// The vendor placeholder opener, `${env.`.
pub open spec fn vendor_prefix() -> Seq<char> {
    seq!['$', '{', 'e', 'n', 'v', '.']
}

/// The canonical placeholder opener, `${`.
pub open spec fn canonical_prefix() -> Seq<char> {
    seq!['$', '{']
}

/// `p` occurs in `s` starting at index `i`.
pub open spec fn occurs_at(s: Seq<char>, i: int, p: Seq<char>) -> bool {
    0 <= i && i + p.len() <= s.len() && s.subrange(i, i + p.len()) == p
}

/// `s` with every occurrence of the vendor opener replaced by the canonical one,
/// scanning left to right; replaced text is not scanned again.
pub open spec fn rewritten(s: Seq<char>) -> Seq<char>
    decreases s.len(),
{
    if s.len() == 0 {
        s
    } else if occurs_at(s, 0, vendor_prefix()) {
        canonical_prefix() + rewritten(s.skip(6))
    } else {
        seq![s[0]] + rewritten(s.skip(1))
    }
}

/// `s` holds no `$`.
pub open spec fn dollar_free(s: Seq<char>) -> bool {
    forall|i: int| 0 <= i < s.len() ==> s[i] != '$'
}

/// A name that the placeholder grammar reads back whole: not empty, without `:` or `}`.
pub open spec fn plain_name(n: Seq<char>) -> bool {
    n.len() > 0 && forall|i: int| 0 <= i < n.len() ==> n[i] != ':' && n[i] != '}'
}

/// A fallback that ends at the first closing brace: it holds no `}`.
pub open spec fn plain_fallback(d: Seq<char>) -> bool {
    forall|i: int| 0 <= i < d.len() ==> d[i] != '}'
}

/// `${NAME:-DEFAULT}`.
pub open spec fn canonical_with_fallback(n: Seq<char>, d: Seq<char>) -> Seq<char> {
    canonical_prefix() + n + seq![':', '-'] + d + seq!['}']
}

/// `${NAME}`.
pub open spec fn canonical_bare(n: Seq<char>) -> Seq<char> {
    canonical_prefix() + n + seq!['}']
}

/// `${env.NAME:-DEFAULT}`.
pub open spec fn vendor_with_fallback(n: Seq<char>, d: Seq<char>) -> Seq<char> {
    vendor_prefix() + n + seq![':', '-'] + d + seq!['}']
}

/// `${env.NAME}`.
pub open spec fn vendor_bare(n: Seq<char>) -> Seq<char> {
    vendor_prefix() + n + seq!['}']
}

proof fn lemma_rewritten_dollar_free(s: Seq<char>)
    requires
        dollar_free(s),
    ensures
        rewritten(s) == s,
    decreases s.len(),
{
    if s.len() > 0 {
        assert(!occurs_at(s, 0, vendor_prefix())) by {
            if occurs_at(s, 0, vendor_prefix()) {
                assert(s.subrange(0, 6)[0] == '$');
            }
        }
        lemma_rewritten_dollar_free(s.skip(1));
        assert(seq![s[0]] + s.skip(1) =~= s);
    }
}

proof fn lemma_rewritten_vendor(n: Seq<char>, tail: Seq<char>)
    requires
        dollar_free(n),
        dollar_free(tail),
    ensures
        rewritten(vendor_prefix() + n + tail) == canonical_prefix() + n + tail,
{
    let s = vendor_prefix() + n + tail;
    assert(s.subrange(0, 6) =~= vendor_prefix());
    assert(s.skip(6) =~= n + tail);
    assert forall|i: int| 0 <= i < (n + tail).len() implies (n + tail)[i] != '$' by {
        if i < n.len() {
            assert((n + tail)[i] == n[i]);
        } else {
            assert((n + tail)[i] == tail[i - n.len()]);
        }
    }
    lemma_rewritten_dollar_free(n + tail);
    assert(canonical_prefix() + (n + tail) =~= canonical_prefix() + n + tail);
}

/// `${env.NAME:-DEFAULT}` becomes `${NAME:-DEFAULT}` when neither part holds a `$`.
pub proof fn lemma_rewrite_vendor_with_fallback(n: Seq<char>, d: Seq<char>)
    requires
        dollar_free(n),
        dollar_free(d),
    ensures
        rewritten(vendor_with_fallback(n, d)) == canonical_with_fallback(n, d),
{
    let tail = seq![':', '-'] + d + seq!['}'];
    assert forall|i: int| 0 <= i < tail.len() implies tail[i] != '$' by {
        if 2 <= i < 2 + d.len() {
            assert(tail[i] == d[i - 2]);
        }
    }
    lemma_rewritten_vendor(n, tail);
    assert(vendor_with_fallback(n, d) =~= vendor_prefix() + n + tail);
    assert(canonical_with_fallback(n, d) =~= canonical_prefix() + n + tail);
}

/// `${env.NAME}` becomes `${NAME}` when the name holds no `$`.
pub proof fn lemma_rewrite_vendor_bare(n: Seq<char>)
    requires
        dollar_free(n),
    ensures
        rewritten(vendor_bare(n)) == canonical_bare(n),
{
    lemma_rewritten_vendor(n, seq!['}']);
}

/// Does the vendor opener start at index `i` of `v`?
fn vendor_prefix_at(v: &Vec<char>, i: usize) -> (r: bool)
    requires
        i <= v.len(),
    ensures
        r == occurs_at(v@, i as int, vendor_prefix()),
{
    if v.len() - i < 6 {
        return false;
    }
    let r = v[i] == '$' && v[i + 1] == '{' && v[i + 2] == 'e' && v[i + 3] == 'n' && v[i + 4]
        == 'v' && v[i + 5] == '.';
    if r {
        assert(v@.subrange(i as int, i + 6) =~= vendor_prefix());
    } else {
        proof {
            let sub = v@.subrange(i as int, i + 6);
            assert(sub[0] == v[i as int] && sub[1] == v[i + 1] && sub[2] == v[i + 2]);
            assert(sub[3] == v[i + 3] && sub[4] == v[i + 4] && sub[5] == v[i + 5]);
        }
    }
    r
}

/// Rewrites every vendor placeholder opener `${env.` in `s` to the canonical `${`,
/// in one left-to-right pass.
pub fn rewrite_vendor_syntax(s: &str) -> (r: String)
    ensures
        r@ == rewritten(s@),
{
    let v = chars_of(s);
    let mut out: Vec<char> = Vec::new();
    let mut i: usize = 0;
    assert(v@.skip(0) =~= v@);
    assert(out@ + rewritten(v@.skip(0)) =~= rewritten(s@));
    while i < v.len()
        invariant
            v@ == s@,
            i <= v.len(),
            out@ + rewritten(v@.skip(i as int)) == rewritten(s@),
        decreases v.len() - i,
    {
        let rest = Ghost(v@.skip(i as int));
        if vendor_prefix_at(&v, i) {
            assert(rest@.subrange(0, 6) =~= v@.subrange(i as int, i + 6));
            assert(rest@.skip(6) =~= v@.skip(i + 6));
            out.push('$');
            out.push('{');
            assert(out@ + rewritten(v@.skip(i + 6)) =~= out@.subrange(0, out.len() - 2) + (
            canonical_prefix() + rewritten(rest@.skip(6))));
            i = i + 6;
        } else {
            assert(!occurs_at(rest@, 0, vendor_prefix())) by {
                if occurs_at(rest@, 0, vendor_prefix()) {
                    assert(rest@.subrange(0, 6) =~= v@.subrange(i as int, i + 6));
                }
            }
            assert(rest@.skip(1) =~= v@.skip(i + 1));
            out.push(v[i]);
            assert(out@ + rewritten(v@.skip(i + 1)) =~= out@.subrange(0, out.len() - 1) + (seq![
                rest@[0],
            ] + rewritten(rest@.skip(1))));
            i = i + 1;
        }
    }
    assert(v@.skip(i as int) =~= Seq::<char>::empty());
    assert(out@ + rewritten(v@.skip(i as int)) =~= out@);
    string_of(&out)
}

/// One environment variable: its name and its value.
pub struct EnvVar {
    pub name: String,
    pub value: String,
}

/// The environment that placeholders are expanded against, as a list of
/// variables; where a name occurs twice, the first occurrence counts.
pub struct EnvTable {
    pub vars: Vec<EnvVar>,
}

/// A placeholder names a variable that the table does not hold.
pub struct UnsetVariable;

/// The value of `name` in `vars`: its first occurrence, if any.
pub open spec fn lookup_in(vars: Seq<(Seq<char>, Seq<char>)>, name: Seq<char>) -> Option<Seq<char>>
    decreases vars.len(),
{
    if vars.len() == 0 {
        None
    } else if vars[0].0 == name {
        Some(vars[0].1)
    } else {
        lookup_in(vars.skip(1), name)
    }
}

impl View for EnvTable {
    type V = Seq<(Seq<char>, Seq<char>)>;

    open spec fn view(&self) -> Seq<(Seq<char>, Seq<char>)> {
        self.vars@.map_values(|e: EnvVar| (e.name@, e.value@))
    }
}

impl EnvTable {
    /// The value of the variable `name`, if the table holds it.
    pub fn get(&self, name: &str) -> (r: Option<String>)
        ensures
            match r {
                Some(v) => lookup_in(self@, name@) == Some(v@),
                None => lookup_in(self@, name@) is None,
            },
    {
        let key = name.to_owned();
        let mut i: usize = 0;
        assert(self@.skip(0) =~= self@);
        while i < self.vars.len()
            invariant
                key@ == name@,
                i <= self.vars.len(),
                lookup_in(self@.skip(i as int), name@) == lookup_in(self@, name@),
            decreases self.vars.len() - i,
        {
            let rest = Ghost(self@.skip(i as int));
            assert(rest@[0] == (self.vars[i as int].name@, self.vars[i as int].value@));
            if self.vars[i].name == key {
                return Some(self.vars[i].value.clone());
            }
            assert(rest@.skip(1) =~= self@.skip(i + 1));
            i = i + 1;
        }
        None
    }

    /// The lookup handed to the expander: the value, or `UnsetVariable`.
    pub fn resolve(&self, name: &str) -> (r: Result<Option<String>, UnsetVariable>)
        ensures
            match r {
                Ok(Some(v)) => lookup_in(self@, name@) == Some(v@),
                Ok(None) => false,
                Err(_) => lookup_in(self@, name@) is None,
            },
    {
        match self.get(name) {
            Some(v) => Ok(Some(v)),
            None => Err(UnsetVariable),
        }
    }
}

/// What the shell-style expander makes of `text` when each variable is looked up
/// in `env`; `None` where a variable without a fallback is unset.
pub uninterp spec fn shell_expansion(text: Seq<char>, env: Seq<(Seq<char>, Seq<char>)>) -> Option<
    Seq<char>,
>;

/// Relies on `shellexpand::env_with_context`, with `EnvTable::resolve` as the lookup.
/// Its source returns the input unchanged when it holds no `$`; reads
/// `${NAME:-DEFAULT}` as the variable's value if the lookup finds one, else
/// `DEFAULT`; and reads `${NAME}` as the variable's value, failing when the lookup
/// reports it unset. The first `}` closes a placeholder and the first `:-` in it
/// splits off the fallback.
#[verifier::external_body]
fn shell_expand(text: &str, env: &EnvTable) -> (r: Option<String>)
    ensures
        match r {
            Some(v) => shell_expansion(text@, env@) == Some(v@),
            None => shell_expansion(text@, env@) is None,
        },
        dollar_free(text@) ==> r is Some && r->0@ == text@,
        forall|n: Seq<char>, d: Seq<char>|
            #![trigger canonical_with_fallback(n, d)]
            text@ == canonical_with_fallback(n, d) && plain_name(n) && plain_fallback(d) ==> r
                is Some && r->0@ == match lookup_in(env@, n) {
                Some(v) => v,
                None => d,
            },
        forall|n: Seq<char>|
            #![trigger canonical_bare(n)]
            text@ == canonical_bare(n) && plain_name(n) ==> match lookup_in(env@, n) {
                Some(v) => r is Some && r->0@ == v,
                None => r is None,
            },
{
    match shellexpand::env_with_context(text, |name: &str| env.resolve(name)) {
        Ok(expanded) => Some(expanded.into_owned()),
        Err(_) => None,
    }
}

/// Rewrites the vendor placeholders of `text` to canonical ones, then expands
/// them against `env`. A placeholder whose variable is unset and that has no
/// fallback fails the expansion.
pub fn expand_placeholders(text: &str, env: &EnvTable) -> (r: Result<String, ConfigError>)
    ensures
        match r {
            Ok(v) => shell_expansion(rewritten(text@), env@) == Some(v@),
            Err(e) => shell_expansion(rewritten(text@), env@) is None && e
                == ConfigError::EnvExpansionError,
        },
        dollar_free(text@) ==> r is Ok && r->Ok_0@ == text@,
        forall|n: Seq<char>, d: Seq<char>|
            #![trigger vendor_with_fallback(n, d)]
            text@ == vendor_with_fallback(n, d) && plain_name(n) && plain_fallback(d)
                && dollar_free(n) && dollar_free(d) ==> r is Ok && r->Ok_0@ == match lookup_in(
                env@,
                n,
            ) {
                Some(x) => x,
                None => d,
            },
        forall|n: Seq<char>|
            #![trigger vendor_bare(n)]
            text@ == vendor_bare(n) && plain_name(n) && dollar_free(n) ==> match lookup_in(
                env@,
                n,
            ) {
                Some(x) => r is Ok && r->Ok_0@ == x,
                None => r == Err::<String, ConfigError>(ConfigError::EnvExpansionError),
            },
{
    let canonical = rewrite_vendor_syntax(text);
    proof {
        if dollar_free(text@) {
            lemma_rewritten_dollar_free(text@);
        }
        assert forall|n: Seq<char>, d: Seq<char>|
            text@ == #[trigger] vendor_with_fallback(n, d) && dollar_free(n) && dollar_free(
                d,
            ) implies canonical@ == canonical_with_fallback(n, d) by {
            lemma_rewrite_vendor_with_fallback(n, d);
        }
        assert forall|n: Seq<char>|
            text@ == #[trigger] vendor_bare(n) && dollar_free(n) implies canonical@
                == canonical_bare(n) by {
            lemma_rewrite_vendor_bare(n);
        }
    }
    match shell_expand(canonical.as_str(), env) {
        Some(v) => Ok(v),
        None => Err(ConfigError::EnvExpansionError),
    }
}

/// Does `s` hold a `$`?
pub fn has_dollar(s: &str) -> (r: bool)
    ensures
        r == !dollar_free(s@),
{
    let v = chars_of(s);
    let mut i: usize = 0;
    while i < v.len()
        invariant
            v@ == s@,
            i <= v.len(),
            forall|j: int| 0 <= j < i ==> v@[j] != '$',
        decreases v.len() - i,
    {
        if v[i] == '$' {
            return true;
        }
        i = i + 1;
    }
    false
}

} // verus!
