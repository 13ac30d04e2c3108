//! The schema-migration engine: an ordered registry of change descriptors,
//! validation of the applied-versions ledger against it, and a runner that
//! plans and drives one atomic step at a time.
//!
//! The runner never touches the database itself. It hands out one step at a
//! time; the caller executes that step's SQL together with the matching ledger
//! write in a single transaction, and reports back what happened.

use vstd::prelude::*;
use vstd::string::StrSliceExecFns;

verus! {

/// True when the versions are strictly increasing, hence unique and sorted.
pub open spec fn strictly_ascending(s: Seq<u64>) -> bool {
    forall|i: int, j: int| 0 <= i < j < s.len() ==> s[i] < s[j]
}

/// True when some two positions of `s` hold the same version.
pub open spec fn has_duplicate(s: Seq<u64>) -> bool {
    exists|i: int, j: int| 0 <= i < j < s.len() && s[i] == s[j]
}

/// One schema change: its version, a label, and the SQL that applies and
/// reverts it. The two SQL texts are meant to be inverses of each other; the
/// engine relies on the author for that and does not check it.
#[derive(Clone, Debug)]
pub struct MigrationDescriptor {
    pub version: u64,
    pub name: String,
    pub forward_sql: String,
    pub backward_sql: String,
}

/// What can go wrong when planning or running migrations.
#[derive(Clone, Debug)]
pub enum MigrationError {
    /// Two descriptors given to the registry share this version.
    DuplicateVersion { version: u64 },
    /// The descriptors given to the registry are not in ascending order:
    /// this version follows a larger one.
    OutOfOrder { version: u64 },
    /// The requested target is not a version of the registry.
    UnknownVersion { version: u64 },
    /// A version text is not digits, optionally followed by `_` and a
    /// label, or its number does not fit in 64 bits.
    MalformedVersion,
    /// The database already stands at the requested target, or past it in
    /// the requested direction. Not a failure: the plan is empty.
    NoMigrationsToRun,
    /// The SQL of the step for this version failed; earlier steps stay
    /// committed.
    StepExecutionFailure { version: u64, cause: String },
    /// The ledger is not a gap-free prefix of the registry: this version is
    /// either recorded but unknown, or missing below a recorded one.
    LedgerInvariantViolation { version: u64 },
    /// The database could not be reached during the step for this version.
    ConnectionFailure { version: u64, cause: String },
}

/// The full, immutable list of migrations, sorted by version.
pub struct MigrationRegistry {
    descriptors: Vec<MigrationDescriptor>,
}

impl View for MigrationRegistry {
    type V = Seq<u64>;

    /// The registry's versions, in ascending order.
    closed spec fn view(&self) -> Seq<u64> {
        self.descriptors@.map_values(|d: MigrationDescriptor| d.version)
    }
}

impl MigrationRegistry {
    /// The registry's versions are strictly ascending; every registry that
    /// `new` returns satisfies this.
    pub open spec fn wf(&self) -> bool {
        strictly_ascending(self@)
    }

    /// The registry's descriptors, in ascending version order.
    pub closed spec fn entries(&self) -> Seq<MigrationDescriptor> {
        self.descriptors@
    }

    /// The registry's versions are those of its descriptors.
    pub proof fn lemma_versions(&self)
        ensures
            self@ == self.entries().map_values(|d: MigrationDescriptor| d.version),
    {
    }

    /// Whether `d` is one of the registry's descriptors.
    pub open spec fn holds(&self, d: MigrationDescriptor) -> bool {
        self.entries().contains(d)
    }

    /// Builds the registry from descriptors listed in ascending version
    /// order. Fails with `DuplicateVersion` when two descriptors share a
    /// version, and otherwise with `OutOfOrder` when the list is not sorted.
    pub fn new(descriptors: Vec<MigrationDescriptor>) -> (r: Result<MigrationRegistry, MigrationError>)
        ensures
            match r {
                Ok(reg) => {
                    &&& reg.wf()
                    &&& reg@ == descriptors@.map_values(|d: MigrationDescriptor| d.version)
                    &&& reg.entries() == descriptors@
                },
                Err(MigrationError::DuplicateVersion { version }) => {
                    &&& has_duplicate(descriptors@.map_values(|d: MigrationDescriptor| d.version))
                    &&& descriptors@.map_values(|d: MigrationDescriptor| d.version).contains(version)
                },
                Err(MigrationError::OutOfOrder { .. }) => {
                    &&& !has_duplicate(descriptors@.map_values(|d: MigrationDescriptor| d.version))
                    &&& !strictly_ascending(descriptors@.map_values(|d: MigrationDescriptor| d.version))
                },
                Err(_) => false,
            },
    {
        if let Some(version) = find_duplicate(&descriptors) {
            return Err(MigrationError::DuplicateVersion { version });
        }
        if let Some(version) = find_descent(&descriptors) {
            return Err(MigrationError::OutOfOrder { version });
        }
        Ok(MigrationRegistry { descriptors })
    }
}

impl MigrationRegistry {
    /// Number of descriptors.
    pub fn len(&self) -> (r: usize)
        ensures
            r == self@.len(),
    {
        self.descriptors.len()
    }

    /// Position of `version` in the registry; `UnknownVersion` when it is
    /// not there.
    pub fn resolve(&self, version: u64) -> (r: Result<usize, MigrationError>)
        ensures
            match r {
                Ok(i) => i < self@.len() && self@[i as int] == version,
                Err(MigrationError::UnknownVersion { version: v }) => v == version && !self@.contains(version),
                Err(_) => false,
            },
    {
        let n = self.descriptors.len();
        let mut i: usize = 0;
        while i < n
            invariant
                n == self@.len(),
                i <= n,
                forall|j: int| 0 <= j < i ==> self@[j] != version,
            decreases n - i,
        {
            if self.descriptors[i].version == version {
                return Ok(i);
            }
            i += 1;
        }
        Err(MigrationError::UnknownVersion { version })
    }

    /// The descriptors whose versions lie above `low` (everything when
    /// `None`) and at or below `high` (everything when `None`), ascending.
    /// Reverse the result to walk it backward.
    pub fn descriptors_between(&self, low: Option<u64>, high: Option<u64>) -> (r: &[MigrationDescriptor])
        requires
            self.wf(),
        ensures
            strictly_ascending(r@.map_values(|d: MigrationDescriptor| d.version)),
            forall|v: u64|
                r@.map_values(|d: MigrationDescriptor| d.version).contains(v) <==> (self@.contains(v)
                    && above(low, v) && at_most(high, v)),
            forall|i: int| 0 <= i < r@.len() ==> self.holds(#[trigger] r@[i]),
    {
        let n = self.descriptors.len();
        let mut a: usize = 0;
        while a < n && !is_above(low, self.descriptors[a].version)
            invariant
                n == self@.len(),
                a <= n,
                forall|j: int| 0 <= j < a ==> !above(low, #[trigger] self@[j]),
            decreases n - a,
        {
            a += 1;
        }
        let mut b: usize = a;
        while b < n && is_at_most(high, self.descriptors[b].version)
            invariant
                n == self@.len(),
                a <= b <= n,
                forall|j: int| a <= j < b ==> at_most(high, #[trigger] self@[j]),
            decreases n - b,
        {
            b += 1;
        }
        let r = vstd::slice::slice_subrange(self.descriptors.as_slice(), a, b);
        proof {
            let rv = r@.map_values(|d: MigrationDescriptor| d.version);
            let vs = self@;
            assert(rv =~= vs.subrange(a as int, b as int));
            assert forall|v: u64| rv.contains(v) <==> (vs.contains(v) && above(low, v) && at_most(high, v)) by {
                if vs.contains(v) && above(low, v) && at_most(high, v) {
                    let j = choose|j: int| 0 <= j < vs.len() && vs[j] == v;
                    if j < a {
                        assert(!above(low, vs[j]));
                    } else if j >= b {
                        assert(b < n);
                        assert(!at_most(high, vs[b as int]));
                        assert(vs[b as int] <= vs[j]);
                    } else {
                        assert(rv[j - a] == v);
                    }
                }
                if rv.contains(v) {
                    let x = choose|x: int| 0 <= x < rv.len() && rv[x] == v;
                    assert(vs[x + a] == v);
                    assert(above(low, vs[a as int]));
                    if x > 0 {
                        assert(vs[a as int] < vs[x + a]);
                    }
                }
            }
            assert forall|i: int| 0 <= i < r@.len() implies self.holds(#[trigger] r@[i]) by {
                assert(self.entries()[i + a] == r@[i]);
            }
        }
        r
    }

    /// The descriptor at position `i`.
    pub fn descriptor(&self, i: usize) -> (r: &MigrationDescriptor)
        requires
            i < self@.len(),
        ensures
            r.version == self@[i as int],
            *r == self.entries()[i as int],
            self.holds(*r),
    {
        &self.descriptors[i]
    }

    /// Reads the ledger rows: the number of registry entries they cover,
    /// that is the `k` with `rows` exactly the first `k` versions.
    pub fn ledger_count(&self, rows: &Vec<u64>) -> (r: Result<usize, MigrationError>)
        requires
            self.wf(),
        ensures
            match r {
                Ok(k) => is_prefix_ledger(self@, rows@.to_set(), k as int),
                Err(MigrationError::LedgerInvariantViolation { .. }) => !ledger_consistent(self@, rows@.to_set()),
                Err(_) => false,
            },
    {
        let ghost vs = self@;
        let ghost rs = rows@.to_set();
        let n = self.descriptors.len();
        let mut k: usize = 0;
        let mut i: usize = 0;
        while i < rows.len()
            invariant
                vs == self@,
                strictly_ascending(vs),
                rs == rows@.to_set(),
                n == vs.len(),
                i <= rows@.len(),
                k <= vs.len(),
                forall|j: int| 0 <= j < i ==> vs.take(k as int).contains(#[trigger] rows@[j]),
                k > 0 ==> rows@.subrange(0, i as int).contains(vs[k - 1]),
            decreases rows@.len() - i,
        {
            let v = rows[i];
            match self.resolve(v) {
                Ok(p) => {
                    if p + 1 > k {
                        k = p + 1;
                        assert(rows@.subrange(0, i + 1)[i as int] == v);
                    } else {
                        assert(rows@.subrange(0, i as int).contains(vs[k - 1])) ;
                        let ghost w = choose|w: int| 0 <= w < i && rows@.subrange(0, i as int)[w] == vs[k - 1];
                        assert(rows@.subrange(0, i + 1)[w] == vs[k - 1]);
                    }
                    assert forall|j: int| 0 <= j < i + 1 implies vs.take(k as int).contains(#[trigger] rows@[j]) by {
                        if j == i {
                            assert(vs.take(k as int)[p as int] == v);
                        } else {
                            assert(vs.take(k as int).contains(rows@[j]));
                        }
                    }
                },
                Err(_) => {
                    proof {
                        assert(rs.contains(v));
                        assert forall|kk: int| !#[trigger] is_prefix_ledger(vs, rs, kk) by {
                            if 0 <= kk <= vs.len() && vs.take(kk).to_set().contains(v) {
                                assert(vs.take(kk).contains(v));
                                let x = choose|x: int| 0 <= x < kk && vs.take(kk)[x] == v;
                                assert(vs.contains(v)) by { assert(vs[x] == v); }
                            }
                        }
                    }
                    return Err(MigrationError::LedgerInvariantViolation { version: v });
                },
            }
            i += 1;
        }
        assert(rows@.subrange(0, i as int) =~= rows@);
        let mut t: usize = 0;
        while t < k
            invariant
                vs == self@,
                strictly_ascending(vs),
                rs == rows@.to_set(),
                k <= vs.len(),
                t <= k,
                forall|j: int| 0 <= j < rows@.len() ==> vs.take(k as int).contains(#[trigger] rows@[j]),
                k > 0 ==> rows@.contains(vs[k - 1]),
                forall|x: int| 0 <= x < t ==> rows@.contains(#[trigger] vs[x]),
            decreases k - t,
        {
            let want = self.descriptors[t].version;
            if !contains_version(rows, want) {
                proof {
                    assert(want == vs[t as int]);
                    assert forall|kk: int| !#[trigger] is_prefix_ledger(vs, rs, kk) by {
                        if 0 <= kk <= vs.len() && rs == vs.take(kk).to_set() {
                            if kk > t {
                                assert(vs.take(kk)[t as int] == want);
                                assert(vs.take(kk).to_set().contains(want));
                            } else {
                                assert(rs.contains(vs[k - 1]));
                                assert(vs.take(kk).contains(vs[k - 1]));
                                let x = choose|x: int| 0 <= x < kk && vs.take(kk)[x] == vs[k - 1];
                                assert(vs[x] < vs[k - 1]);
                            }
                        }
                    }
                }
                return Err(MigrationError::LedgerInvariantViolation { version: want });
            }
            t += 1;
        }
        proof {
            assert forall|v: u64| rs.contains(v) <==> vs.take(k as int).to_set().contains(v) by {
                if rs.contains(v) {
                    let j = choose|j: int| 0 <= j < rows@.len() && rows@[j] == v;
                    assert(vs.take(k as int).contains(rows@[j]));
                }
                if vs.take(k as int).to_set().contains(v) {
                    let x = choose|x: int| 0 <= x < k && vs.take(k as int)[x] == v;
                    assert(rows@.contains(vs[x]));
                }
            }
            assert(rs =~= vs.take(k as int).to_set());
        }
        Ok(k)
    }

    /// The highest applied version according to the ledger rows, or `None`
    /// for an empty ledger. Fails with `LedgerInvariantViolation` unless the
    /// rows are exactly the first few versions of the registry.
    pub fn current_version(&self, rows: &Vec<u64>) -> (r: Result<Option<u64>, MigrationError>)
        requires
            self.wf(),
        ensures
            match r {
                Ok(cur) => exists|k: int| is_prefix_ledger(self@, rows@.to_set(), k) && cur == top_of(self@, k),
                Err(MigrationError::LedgerInvariantViolation { .. }) => !ledger_consistent(self@, rows@.to_set()),
                Err(_) => false,
            },
    {
        let k = match self.ledger_count(rows) {
            Ok(k) => k,
            Err(e) => return Err(e),
        };
        assert(is_prefix_ledger(self@, rows@.to_set(), k as int));
        if k == 0 {
            assert(top_of(self@, k as int) == None::<u64>);
            Ok(None)
        } else {
            let v = self.descriptors[k - 1].version;
            assert(self@[k - 1] == v);
            assert(top_of(self@, k as int) == Some(v));
            Ok(Some(v))
        }
    }
}

/// Whether `c` is an ASCII decimal digit.
pub open spec fn is_digit(c: char) -> bool {
    '0' <= c && c <= '9'
}

/// The number that a run of decimal digits spells.
pub open spec fn digits_value(s: Seq<char>) -> nat
    decreases s.len(),
{
    if s.len() == 0 {
        0
    } else {
        digits_value(s.drop_last()) * 10 + (s.last() as nat - '0' as nat) as nat
    }
}

/// The text's version is spelled by its first `k` characters: one or more
/// digits, then the end of the text or an underscore that starts the label.
pub open spec fn version_prefix(s: Seq<char>, k: int) -> bool {
    &&& 1 <= k <= s.len()
    &&& forall|i: int| 0 <= i < k ==> is_digit(#[trigger] s[i])
    &&& k == s.len() || s[k] == '_'
}

proof fn lemma_digits_grow(s: Seq<char>, i: int, j: int)
    requires
        0 <= i <= j <= s.len(),
        forall|x: int| 0 <= x < j ==> is_digit(#[trigger] s[x]),
    ensures
        digits_value(s.take(i)) <= digits_value(s.take(j)),
    decreases j - i,
{
    if i < j {
        lemma_digits_grow(s, i, j - 1);
        assert(s.take(j).drop_last() =~= s.take(j - 1));
    }
}

/// The number that a version text spells, if it is well formed and fits.
pub open spec fn version_of_text(s: Seq<char>, v: u64) -> bool {
    exists|k: int| version_prefix(s, k) && digits_value(s.take(k)) == v
}

/// A version text is malformed: no prefix of it spells a version that fits.
pub open spec fn malformed_text(s: Seq<char>) -> bool {
    forall|k: int| version_prefix(s, k) ==> digits_value(s.take(k)) > u64::MAX
}

/// Reads the version of a migration name such as `1602334616_create_operators`,
/// or of a bare version such as `1602334616`: the leading decimal digits, up
/// to the end or to the first underscore. `None` when the text has no such
/// form or the number does not fit in a `u64`.
pub fn parse_version(text: &str) -> (r: Option<u64>)
    ensures
        match r {
            Some(v) => version_of_text(text@, v),
            None => malformed_text(text@),
        },
{
    let ghost s = text@;
    let n = text.unicode_len();
    let mut acc: u64 = 0;
    let mut i: usize = 0;
    while i < n
        invariant
            n == s.len(),
            s == text@,
            i <= n,
            forall|x: int| 0 <= x < i ==> is_digit(#[trigger] s[x]),
            acc == digits_value(s.take(i as int)),
        ensures
            i < n ==> !is_digit(s[i as int]),
        decreases n - i,
    {
        let c = text.get_char(i);
        if !('0' <= c && c <= '9') {
            break;
        }
        let d = (c as u32 - '0' as u32) as u64;
        proof {
            assert(s.take(i + 1).drop_last() =~= s.take(i as int));
            assert(s.take(i + 1).last() == c);
        }
        if acc > (u64::MAX - d) / 10 {
            proof {
                assert(digits_value(s.take(i + 1)) > u64::MAX) by (nonlinear_arith)
                    requires
                        digits_value(s.take(i + 1)) == acc * 10 + d,
                        acc > (u64::MAX - d) / 10,
                        d <= 9,
                ;
                assert forall|k: int| version_prefix(s, k) implies digits_value(s.take(k)) > u64::MAX by {
                    if k <= i {
                        assert(is_digit(s[k]));
                    }
                    lemma_digits_grow(s, i + 1, k);
                }
            }
            return None;
        }
        acc = acc * 10 + d;
        i += 1;
    }
    if i == 0 || (i < n && text.get_char(i) != '_') {
        proof {
            assert forall|k: int| version_prefix(s, k) implies digits_value(s.take(k)) > u64::MAX by {
                if k <= i && k < n {
                    if k < i {
                        assert(is_digit(s[k]));
                    }
                } else if k > i {
                    assert(is_digit(s[i as int]));
                }
            }
        }
        return None;
    }
    assert(version_prefix(s, i as int));
    Some(acc)
}

impl MigrationDescriptor {
    /// A descriptor named like `1602334616_create_operators`, whose version
    /// is read from the name. `MalformedVersion` when the name does not
    /// start with a version.
    pub fn from_name(name: String, forward_sql: String, backward_sql: String) -> (r: Result<
        MigrationDescriptor,
        MigrationError,
    >)
        ensures
            match r {
                Ok(d) => {
                    &&& version_of_text(name@, d.version)
                    &&& d.name == name
                    &&& d.forward_sql == forward_sql
                    &&& d.backward_sql == backward_sql
                },
                Err(MigrationError::MalformedVersion) => malformed_text(name@),
                Err(_) => false,
            },
    {
        match parse_version(name.as_str()) {
            Some(version) => Ok(MigrationDescriptor { version, name, forward_sql, backward_sql }),
            None => Err(MigrationError::MalformedVersion),
        }
    }
}

/// Reads the versions of the ledger rows, each a migration name or a bare
/// version. `MalformedVersion` when some row does not start with a version.
pub fn ledger_versions(rows: &Vec<String>) -> (r: Result<Vec<u64>, MigrationError>)
    ensures
        match r {
            Ok(vs) => vs@.len() == rows@.len() && forall|i: int|
                0 <= i < rows@.len() ==> version_of_text(#[trigger] rows@[i]@, vs@[i]),
            Err(MigrationError::MalformedVersion) => exists|i: int|
                0 <= i < rows@.len() && malformed_text(#[trigger] rows@[i]@),
            Err(_) => false,
        },
{
    let mut vs: Vec<u64> = Vec::new();
    let mut i: usize = 0;
    while i < rows.len()
        invariant
            i <= rows@.len(),
            vs@.len() == i,
            forall|j: int| 0 <= j < i ==> version_of_text(#[trigger] rows@[j]@, vs@[j]),
        decreases rows@.len() - i,
    {
        match parse_version(rows[i].as_str()) {
            Some(v) => {
                let ghost old_vs = vs@;
                vs.push(v);
                assert forall|j: int| 0 <= j < i + 1 implies version_of_text(#[trigger] rows@[j]@, vs@[j]) by {
                    if j < i {
                        assert(vs@[j] == old_vs[j]);
                    }
                }
            },
            None => {
                assert(malformed_text(rows@[i as int]@));
                return Err(MigrationError::MalformedVersion);
            },
        }
        i += 1;
    }
    Ok(vs)
}

/// Whether `v` lies above the exclusive lower bound (`None`: no bound).
pub open spec fn above(low: Option<u64>, v: u64) -> bool {
    match low {
        Some(l) => l < v,
        None => true,
    }
}

/// Whether `v` lies at or below the inclusive upper bound (`None`: no bound).
pub open spec fn at_most(high: Option<u64>, v: u64) -> bool {
    match high {
        Some(h) => v <= h,
        None => true,
    }
}

/// The ledger holds exactly the first `k` versions of the registry.
pub open spec fn is_prefix_ledger(reg: Seq<u64>, rows: Set<u64>, k: int) -> bool {
    0 <= k <= reg.len() && rows == reg.take(k).to_set()
}

/// The ledger is a gap-free prefix of the registry.
pub open spec fn ledger_consistent(reg: Seq<u64>, rows: Set<u64>) -> bool {
    exists|k: int| is_prefix_ledger(reg, rows, k)
}

/// The version that stands last among the first `k`, or `None` for `k == 0`.
pub open spec fn top_of(reg: Seq<u64>, k: int) -> Option<u64> {
    if k <= 0 {
        None
    } else {
        Some(reg[k - 1])
    }
}

fn is_above(low: Option<u64>, v: u64) -> (r: bool)
    ensures
        r == above(low, v),
{
    match low {
        Some(l) => l < v,
        None => true,
    }
}

fn is_at_most(high: Option<u64>, v: u64) -> (r: bool)
    ensures
        r == at_most(high, v),
{
    match high {
        Some(h) => v <= h,
        None => true,
    }
}

fn contains_version(rows: &Vec<u64>, v: u64) -> (r: bool)
    ensures
        r == rows@.contains(v),
{
    let mut i: usize = 0;
    while i < rows.len()
        invariant
            i <= rows@.len(),
            forall|j: int| 0 <= j < i ==> rows@[j] != v,
        decreases rows@.len() - i,
    {
        if rows[i] == v {
            assert(rows@[i as int] == v);
            return true;
        }
        i += 1;
    }
    false
}

/// A version that two descriptors share, if any.
fn find_duplicate(descriptors: &Vec<MigrationDescriptor>) -> (r: Option<u64>)
    ensures
        r is None <==> !has_duplicate(descriptors@.map_values(|d: MigrationDescriptor| d.version)),
        r matches Some(v) ==> descriptors@.map_values(|d: MigrationDescriptor| d.version).contains(v),
{
    let ghost vs = descriptors@.map_values(|d: MigrationDescriptor| d.version);
    let n = descriptors.len();
    let mut i: usize = 0;
    while i < n
        invariant
            n == vs.len(),
            vs == descriptors@.map_values(|d: MigrationDescriptor| d.version),
            i <= n,
            forall|a: int, b: int| 0 <= a < b < n && a < i ==> vs[a] != vs[b],
        decreases n - i,
    {
        let mut j: usize = i + 1;
        while j < n
            invariant
                n == vs.len(),
                vs == descriptors@.map_values(|d: MigrationDescriptor| d.version),
                i < n,
                i + 1 <= j <= n,
                forall|a: int, b: int| 0 <= a < b < n && a < i ==> vs[a] != vs[b],
                forall|b: int| i < b < j ==> vs[i as int] != vs[b],
            decreases n - j,
        {
            if descriptors[i].version == descriptors[j].version {
                let version = descriptors[i].version;
                assert(vs[i as int] == vs[j as int]);
                assert(vs[i as int] == version);
                return Some(version);
            }
            j += 1;
        }
        i += 1;
    }
    None
}

/// A version that follows a version not smaller than itself, if any.
fn find_descent(descriptors: &Vec<MigrationDescriptor>) -> (r: Option<u64>)
    ensures
        r is None <==> strictly_ascending(descriptors@.map_values(|d: MigrationDescriptor| d.version)),
{
    let ghost vs = descriptors@.map_values(|d: MigrationDescriptor| d.version);
    let n = descriptors.len();
    if n == 0 {
        return None;
    }
    let mut k: usize = 1;
    while k < n
        invariant
            n == vs.len(),
            vs == descriptors@.map_values(|d: MigrationDescriptor| d.version),
            1 <= k <= n,
            forall|a: int| 0 < a < k ==> vs[a - 1] < #[trigger] vs[a],
        decreases n - k,
    {
        if descriptors[k - 1].version >= descriptors[k].version {
            assert(vs[k - 1] >= vs[k as int]);
            return Some(descriptors[k].version);
        }
        k += 1;
    }
    assert forall|a: int, b: int| 0 <= a < b < vs.len() implies vs[a] < vs[b] by {
        lemma_neighbours_ascending(vs, a, b);
    }
    None
}

/// Neighbour-wise ascending implies ascending between any two positions.
proof fn lemma_neighbours_ascending(s: Seq<u64>, a: int, b: int)
    requires
        forall|x: int| 0 < x < s.len() ==> s[x - 1] < #[trigger] s[x],
        0 <= a < b < s.len(),
    ensures
        s[a] < s[b],
    decreases b - a,
{
    if b - a > 1 {
        lemma_neighbours_ascending(s, a, b - 1);
    }
}

} // verus!
