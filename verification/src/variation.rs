//! Variation module support.
//!
//! Variation modules give dynamic SNMP responses. This module holds the
//! module interface, the registry and the built-in modules (delay, error,
//! numeric, writecache).

pub mod builtin;

use vstd::prelude::*;

use crate::error::SnmpsimError;
use crate::oid::Oid;
use crate::snmp_value::{SnmpValue, SpecValue};
use crate::text::str_eq;
use crate::variation::builtin::{
    delay_result, error_result, numeric_result, writecache_step, DelayModule, ErrorModule,
    NumericModule, WriteCacheModule,
};

verus! {

/// The value bound to `k` by a list of pairs: the last pair with that key.
pub open spec fn last_value<K, V>(s: Seq<(K, V)>, k: K) -> Option<V>
    decreases s.len(),
{
    if s.len() == 0 {
        None
    } else if s.last().0 == k {
        Some(s.last().1)
    } else {
        last_value(s.drop_last(), k)
    }
}

/// A key that no pair holds has no value.
pub proof fn lemma_last_value_absent<K, V>(s: Seq<(K, V)>, k: K)
    requires
        forall|i: int| 0 <= i < s.len() ==> s[i].0 != k,
    ensures
        last_value(s, k) is None,
    decreases s.len(),
{
    if s.len() > 0 {
        let t = s.drop_last();
        assert(forall|i: int| 0 <= i < t.len() ==> t[i] == s[i]);
        lemma_last_value_absent(t, k);
    }
}

/// Replacing the last pair of a key changes the value of that key only.
pub proof fn lemma_last_value_update<K, V>(s: Seq<(K, V)>, i: int, v: V)
    requires
        0 <= i < s.len(),
        forall|j: int| i < j < s.len() ==> s[j].0 != s[i].0,
    ensures
        forall|k: K|
            #![trigger last_value(s.update(i, (s[i].0, v)), k)]
            last_value(s.update(i, (s[i].0, v)), k) == if k == s[i].0 {
                Some(v)
            } else {
                last_value(s, k)
            },
    decreases s.len(),
{
    let t = s.update(i, (s[i].0, v));
    if i < s.len() - 1 {
        let sd = s.drop_last();
        assert(t.drop_last() =~= sd.update(i, (sd[i].0, v)));
        lemma_last_value_update(sd, i, v);
        assert(t.last() == s.last());
        assert forall|k: K|
            #![trigger last_value(s.update(i, (s[i].0, v)), k)]
            last_value(s.update(i, (s[i].0, v)), k) == if k == s[i].0 {
                Some(v)
            } else {
                last_value(s, k)
            } by {
            assert(last_value(sd.update(i, (sd[i].0, v)), k) == if k == sd[i].0 {
                Some(v)
            } else {
                last_value(sd, k)
            });
        }
    } else {
        assert(t.drop_last() =~= s.drop_last());
        assert(t.last() == (s[i].0, v));
    }
}

/// The characters of a list of string pairs.
pub open spec fn pairs_view(v: Seq<(String, String)>) -> Seq<(Seq<char>, Seq<char>)> {
    Seq::new(v.len(), |i: int| (v[i].0@, v[i].1@))
}

/// Looks a key up in a list of string pairs: the last pair with that key wins.
pub fn lookup(pairs: &Vec<(String, String)>, key: &str) -> (r: Option<String>)
    ensures
        r is Some <==> last_value(pairs_view(pairs@), key@) is Some,
        r matches Some(v) ==> last_value(pairs_view(pairs@), key@) == Some(v@),
{
    let ghost pv = pairs_view(pairs@);
    let mut i: usize = pairs.len();
    assert(pv.take(pv.len() as int) =~= pv);
    while i > 0
        invariant
            i <= pairs@.len(),
            pv == pairs_view(pairs@),
            last_value(pv, key@) == last_value(pv.take(i as int), key@),
        decreases i,
    {
        assert(pv.take(i as int).drop_last() =~= pv.take(i - 1));
        assert(pv.take(i as int).last() == pv[i - 1]);
        if str_eq(pairs[i - 1].0.as_str(), key) {
            return Some(crate::text::copy_string(pairs[i - 1].1.as_str()));
        }
        i -= 1;
    }
    None
}

/// Context passed to a variation module when variating a value.
#[derive(Debug, Clone)]
pub struct VariationContext {
    pub oid: Oid,
    pub tag: String,
    pub value: String,
    pub next_flag: bool,
    pub set_flag: bool,
    pub exact_match: bool,
    pub data_file: String,
    /// Module options string (from --variation-module-options).
    pub options: String,
    /// Per-record state; a later pair overrides an earlier one with the same key.
    pub record_context: Vec<(String, String)>,
    /// Per-agent state; a later pair overrides an earlier one with the same key.
    pub agent_context: Vec<(String, String)>,
}

/// `b` is `a` with at most its record context changed.
pub open spec fn only_record_context_changed(a: VariationContext, b: VariationContext) -> bool {
    &&& b.oid == a.oid
    &&& b.tag == a.tag
    &&& b.value == a.value
    &&& b.next_flag == a.next_flag
    &&& b.set_flag == a.set_flag
    &&& b.exact_match == a.exact_match
    &&& b.data_file == a.data_file
    &&& b.options == a.options
    &&& b.agent_context == a.agent_context
}

/// Result returned by a variation module.
pub struct VariationResult {
    pub oid: Oid,
    pub tag: String,
    pub value: SnmpValue,
    /// How long the responder waits before answering, in milliseconds.
    pub delay_ms: u64,
}

/// Why a record's value could not be evaluated.
pub enum EvalError {
    /// A malformed value, with its message.
    Parse(Seq<char>),
    /// A configuration problem (an unknown variation module), with its message.
    Config(Seq<char>),
}

/// `r` is `Ok` with a result carrying `v` and `delay`, or the error `e`.
pub open spec fn module_outcome(
    r: Result<VariationResult, SnmpsimError>,
    ctx: VariationContext,
    s: Result<SpecValue, EvalError>,
    delay: nat,
) -> bool {
    match s {
        Ok(v) => r matches Ok(x) && x.value@ == v && x.oid@ == ctx.oid@ && x.tag@ == ctx.tag@
            && x.delay_ms == clamp_delay(delay),
        Err(e) => r matches Err(x) && error_is(x, e),
    }
}

/// The library error that stands for `e`.
pub open spec fn error_is(x: SnmpsimError, e: EvalError) -> bool {
    match e {
        EvalError::Parse(m) => x matches SnmpsimError::Parse(t) && t@ == m,
        EvalError::Config(m) => x matches SnmpsimError::Config(t) && t@ == m,
    }
}

/// A delay in milliseconds, saturated at `u64::MAX`.
pub open spec fn clamp_delay(d: nat) -> u64 {
    if d > u64::MAX {
        u64::MAX
    } else {
        d as u64
    }
}

/// Interface of the variation modules.
pub trait VariationModule {
    /// Called once when the module is loaded.
    fn init(&mut self, options: &str, mode: &str) -> Result<(), SnmpsimError>;

    /// Called for each record that references this module.
    fn variate(&mut self, ctx: &mut VariationContext) -> Result<VariationResult, SnmpsimError>;

    /// Called when the module is unloaded.
    fn shutdown(&mut self, options: &str, mode: &str) -> Result<(), SnmpsimError>;

    /// Module name.
    fn name(&self) -> &'static str;
}

/// The built-in modules a registry can hold.
pub enum BuiltinModule {
    Delay(DelayModule),
    Error(ErrorModule),
    Numeric(NumericModule),
    WriteCache(WriteCacheModule),
}

/// Which kind of module answers to a name.
#[derive(Clone, Copy, Debug, PartialEq, Eq)]
pub enum ModuleKind {
    Delay,
    Error,
    Numeric,
    WriteCache,
}

/// The kind of module a name refers to, if it is one of the built-in names.
pub open spec fn kind_of_name(name: Seq<char>) -> Option<ModuleKind> {
    if name == "delay"@ {
        Some(ModuleKind::Delay)
    } else if name == "error"@ {
        Some(ModuleKind::Error)
    } else if name == "numeric"@ {
        Some(ModuleKind::Numeric)
    } else if name == "writecache"@ {
        Some(ModuleKind::WriteCache)
    } else {
        None
    }
}

/// The kind of module a name refers to, if it is one of the built-in names.
pub fn module_kind(name: &str) -> (r: Option<ModuleKind>)
    ensures
        r == kind_of_name(name@),
{
    if str_eq(name, "delay") {
        Some(ModuleKind::Delay)
    } else if str_eq(name, "error") {
        Some(ModuleKind::Error)
    } else if str_eq(name, "numeric") {
        Some(ModuleKind::Numeric)
    } else if str_eq(name, "writecache") {
        Some(ModuleKind::WriteCache)
    } else {
        None
    }
}

/// Registry of loaded variation modules, one per name.
pub struct VariationModuleRegistry {
    pub delay: Option<DelayModule>,
    pub error: Option<ErrorModule>,
    pub numeric: Option<NumericModule>,
    pub writecache: Option<WriteCacheModule>,
}

impl Default for VariationModuleRegistry {
    fn default() -> (r: VariationModuleRegistry)
        ensures
            !r.has(ModuleKind::Delay),
            !r.has(ModuleKind::Error),
            !r.has(ModuleKind::Numeric),
            !r.has(ModuleKind::WriteCache),
    {
        VariationModuleRegistry::new()
    }
}

impl VariationModuleRegistry {
    /// Whether a module of the given kind is registered.
    pub open spec fn has(&self, k: ModuleKind) -> bool {
        match k {
            ModuleKind::Delay => self.delay is Some,
            ModuleKind::Error => self.error is Some,
            ModuleKind::Numeric => self.numeric is Some,
            ModuleKind::WriteCache => self.writecache is Some,
        }
    }

    /// The pairs cached by the registered writecache module.
    pub open spec fn cache(&self) -> Seq<(Seq<u32>, SpecValue)> {
        match self.writecache {
            Some(w) => w.cached_pairs(),
            None => Seq::empty(),
        }
    }

    /// Every built-in module is registered.
    pub open spec fn is_complete(&self) -> bool {
        self.delay is Some && self.error is Some && self.numeric is Some && self.writecache is Some
    }

    pub fn new() -> (r: VariationModuleRegistry)
        ensures
            !r.has(ModuleKind::Delay),
            !r.has(ModuleKind::Error),
            !r.has(ModuleKind::Numeric),
            !r.has(ModuleKind::WriteCache),
    {
        VariationModuleRegistry { delay: None, error: None, numeric: None, writecache: None }
    }

    /// Register a built-in variation module, replacing one of the same name.
    pub fn register(&mut self, module: BuiltinModule)
        ensures
            match module {
                BuiltinModule::Delay(_) => final(self).has(ModuleKind::Delay),
                BuiltinModule::Error(_) => final(self).has(ModuleKind::Error),
                BuiltinModule::Numeric(_) => final(self).has(ModuleKind::Numeric),
                BuiltinModule::WriteCache(w) => final(self).writecache == Some(w),
            },
            forall|k: ModuleKind| old(self).has(k) ==> final(self).has(k),
            !(module is WriteCache) ==> final(self).writecache == old(self).writecache,
    {
        match module {
            BuiltinModule::Delay(m) => {
                self.delay = Some(m);
            },
            BuiltinModule::Error(m) => {
                self.error = Some(m);
            },
            BuiltinModule::Numeric(m) => {
                self.numeric = Some(m);
            },
            BuiltinModule::WriteCache(m) => {
                self.writecache = Some(m);
            },
        }
    }

    /// Look up a module by name: the kind of the registered module answering to it.
    pub fn get(&self, name: &str) -> (r: Option<ModuleKind>)
        ensures
            r is Some <==> (kind_of_name(name@) matches Some(k) && self.has(k)),
            r is Some ==> r == kind_of_name(name@),
    {
        match module_kind(name) {
            Some(k) => {
                let present = match k {
                    ModuleKind::Delay => self.delay.is_some(),
                    ModuleKind::Error => self.error.is_some(),
                    ModuleKind::Numeric => self.numeric.is_some(),
                    ModuleKind::WriteCache => self.writecache.is_some(),
                };
                if present {
                    Some(k)
                } else {
                    None
                }
            },
            None => None,
        }
    }

    /// The names of the registered modules, in the order delay, error,
    /// numeric, writecache.
    pub open spec fn registered_names(&self) -> Seq<Seq<char>> {
        (if self.delay is Some { seq!["delay"@] } else { Seq::empty() }) + (if self.error is Some {
            seq!["error"@]
        } else {
            Seq::empty()
        }) + (if self.numeric is Some { seq!["numeric"@] } else { Seq::empty() }) + (
        if self.writecache is Some {
            seq!["writecache"@]
        } else {
            Seq::empty()
        })
    }

    /// The names of all registered modules.
    pub fn names(&self) -> (r: Vec<&'static str>)
        ensures
            Seq::new(r@.len(), |i: int| r@[i]@) == self.registered_names(),
    {
        let mut r: Vec<&'static str> = Vec::new();
        let ghost mut expect: Seq<Seq<char>> = Seq::empty();
        if self.delay.is_some() {
            r.push("delay");
            proof { expect = expect + seq!["delay"@]; }
        }
        if self.error.is_some() {
            r.push("error");
            proof { expect = expect + seq!["error"@]; }
        }
        if self.numeric.is_some() {
            r.push("numeric");
            proof { expect = expect + seq!["numeric"@]; }
        }
        if self.writecache.is_some() {
            r.push("writecache");
            proof { expect = expect + seq!["writecache"@]; }
        }
        assert(Seq::new(r@.len(), |i: int| r@[i]@) =~= expect);
        assert(expect =~= self.registered_names());
        r
    }

    /// Create a registry with all built-in modules registered.
    pub fn with_builtins() -> (r: VariationModuleRegistry)
        ensures
            r.is_complete(),
            r.cache() == Seq::<(Seq<u32>, SpecValue)>::empty(),
    {
        let mut registry = Self::new();
        registry.register(BuiltinModule::Delay(DelayModule::new()));
        registry.register(BuiltinModule::Error(ErrorModule::new()));
        registry.register(BuiltinModule::Numeric(NumericModule::new()));
        registry.register(BuiltinModule::WriteCache(WriteCacheModule::new()));
        registry
    }

    /// Run the module registered under `name` on `ctx`; `None` when no
    /// module answers to the name.
    pub fn variate(&mut self, name: &str, ctx: &mut VariationContext) -> (r: Option<
        Result<VariationResult, SnmpsimError>,
    >)
        ensures
            r is Some <==> (kind_of_name(name@) matches Some(k) && old(self).has(k)),
            forall|k: ModuleKind| final(self).has(k) == old(self).has(k),
            final(self).is_complete() == old(self).is_complete(),
            r matches Some(res) ==> match kind_of_name(name@) {
                Some(ModuleKind::Delay) => {
                    let (s, d) = delay_result(old(ctx).tag@, old(ctx).value@);
                    module_outcome(res, *old(ctx), s, d) && *final(ctx) == *old(ctx)
                        && final(self).cache() == old(self).cache()
                },
                Some(ModuleKind::Error) => module_outcome(
                    res,
                    *old(ctx),
                    Ok(error_result(old(ctx).value@)),
                    0,
                ) && *final(ctx) == *old(ctx) && final(self).cache() == old(self).cache(),
                Some(ModuleKind::Numeric) => {
                    let (v, rc) = numeric_result(
                        old(ctx).tag@,
                        old(ctx).value@,
                        pairs_view(old(ctx).record_context@),
                    );
                    module_outcome(res, *old(ctx), Ok(v), 0) && pairs_view(
                        final(ctx).record_context@,
                    ) == rc && only_record_context_changed(*old(ctx), *final(ctx))
                        && final(self).cache() == old(self).cache()
                },
                Some(ModuleKind::WriteCache) => {
                    let (s, c, d) = writecache_step(
                        old(self).cache(),
                        old(ctx).oid@,
                        old(ctx).tag@,
                        old(ctx).value@,
                        old(ctx).set_flag,
                    );
                    module_outcome(res, *old(ctx), s, d) && *final(ctx) == *old(ctx)
                        && final(self).cache() == c
                },
                None => false,
            },
            r is None ==> final(self).cache() == old(self).cache() && *final(ctx) == *old(ctx),
    {
        match module_kind(name) {
            Some(ModuleKind::Delay) => match &mut self.delay {
                Some(m) => Some(m.variate(ctx)),
                None => None,
            },
            Some(ModuleKind::Error) => match &mut self.error {
                Some(m) => Some(m.variate(ctx)),
                None => None,
            },
            Some(ModuleKind::Numeric) => match &mut self.numeric {
                Some(m) => Some(m.variate(ctx)),
                None => None,
            },
            Some(ModuleKind::WriteCache) => match &mut self.writecache {
                Some(m) => Some(m.variate(ctx)),
                None => None,
            },
            None => None,
        }
    }
}

} // verus!
