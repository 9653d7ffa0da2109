//! Per-tenant resource accounting against quotas, and what is left of
//! the machine's resources.

use vstd::prelude::*;
use crate::table::Table;

verus! {

/// The most resources one tenant may use.
#[derive(Debug, Clone, Copy)]
pub struct ResourceQuota {
    pub max_memory_mb: u64,
    pub max_cpu_percent: u32,
    pub max_disk_mb: u64,
    pub max_bandwidth_mb: u64,
    pub max_processes: u32,
    pub max_open_files: u32,
}

impl Default for ResourceQuota {
    /// 512 MB of memory, 25 % of the processor, 1024 MB of disk, 100 MB of
    /// bandwidth, 10 processes, 256 open files.
    fn default() -> (r: Self)
        ensures
            r.max_memory_mb == 512,
            r.max_cpu_percent == 25,
            r.max_disk_mb == 1024,
            r.max_bandwidth_mb == 100,
            r.max_processes == 10,
            r.max_open_files == 256,
    {
        ResourceQuota {
            max_memory_mb: 512,
            max_cpu_percent: 25,
            max_disk_mb: 1024,
            max_bandwidth_mb: 100,
            max_processes: 10,
            max_open_files: 256,
        }
    }
}

/// What one tenant uses.
#[derive(Debug, Clone, Copy, Default)]
pub struct TenantResources {
    pub memory_bytes: u64,
    pub cpu_time_ms: u64,
    pub disk_bytes: u64,
    pub bandwidth_bytes: u64,
    pub io_operations: u64,
}

/// The machine's resources.
#[derive(Debug, Clone, Copy, Default)]
pub struct SystemResources {
    pub total_memory_mb: u64,
    pub total_cpu_cores: u32,
    pub total_disk_mb: u64,
}

/// Nothing used.
pub open spec fn no_use(r: TenantResources) -> bool {
    r.memory_bytes == 0 && r.cpu_time_ms == 0 && r.disk_bytes == 0 && r.bandwidth_bytes == 0 && r.io_operations == 0
}

/// Whether `used` plus `extra` stays within `quota` for memory and disk.
pub open spec fn fits_quota(used: TenantResources, extra: TenantResources, quota: ResourceQuota) -> bool {
    used.memory_bytes + extra.memory_bytes <= quota.max_memory_mb * 1048576
        && used.disk_bytes + extra.disk_bytes <= quota.max_disk_mb * 1048576
}

/// Whether adding `extra` to `used` and comparing against `quota` stays
/// within 64 bits.
pub open spec fn sums_fit(used: TenantResources, extra: TenantResources, quota: ResourceQuota) -> bool {
    &&& used.memory_bytes + extra.memory_bytes <= u64::MAX
    &&& used.disk_bytes + extra.disk_bytes <= u64::MAX
    &&& used.bandwidth_bytes + extra.bandwidth_bytes <= u64::MAX
    &&& quota.max_memory_mb * 1048576 <= u64::MAX
    &&& quota.max_disk_mb * 1048576 <= u64::MAX
}

/// `a - b`, or 0 when `b` is larger.
pub open spec fn sat_sub(a: u64, b: u64) -> u64 {
    if a >= b { (a - b) as u64 } else { 0 }
}

/// The use after releasing `r`: each of memory, disk and bandwidth lowered,
/// not below zero.
pub open spec fn released(used: TenantResources, r: TenantResources) -> TenantResources {
    TenantResources {
        memory_bytes: sat_sub(used.memory_bytes, r.memory_bytes),
        disk_bytes: sat_sub(used.disk_bytes, r.disk_bytes),
        bandwidth_bytes: sat_sub(used.bandwidth_bytes, r.bandwidth_bytes),
        ..used
    }
}

/// The use after allocating `r`: memory, disk and bandwidth raised.
pub open spec fn allocated(used: TenantResources, r: TenantResources) -> TenantResources {
    TenantResources {
        memory_bytes: (used.memory_bytes + r.memory_bytes) as u64,
        disk_bytes: (used.disk_bytes + r.disk_bytes) as u64,
        bandwidth_bytes: (used.bandwidth_bytes + r.bandwidth_bytes) as u64,
        ..used
    }
}

/// Memory used by the tenants, in bytes.
pub open spec fn memory_sum(t: Seq<(String, TenantResources)>) -> nat
    decreases t.len(),
{
    if t.len() == 0 { 0 } else { memory_sum(t.drop_last()) + t.last().1.memory_bytes as nat }
}

/// Disk used by the tenants, in bytes.
pub open spec fn disk_sum(t: Seq<(String, TenantResources)>) -> nat
    decreases t.len(),
{
    if t.len() == 0 { 0 } else { disk_sum(t.drop_last()) + t.last().1.disk_bytes as nat }
}

/// Tracks each tenant's use against its quota.
pub struct ResourceManager {
    tenants: Table<TenantResources>,
    quotas: Table<ResourceQuota>,
    system_total: SystemResources,
}

impl ResourceManager {
    /// Each tenant's use.
    pub closed spec fn usage(&self) -> Map<Seq<char>, TenantResources> {
        self.tenants.map()
    }

    /// Each tenant's quota.
    pub closed spec fn quota_map(&self) -> Map<Seq<char>, ResourceQuota> {
        self.quotas.map()
    }

    /// The tenants' use, in registration order.
    pub closed spec fn usage_entries(&self) -> Seq<(String, TenantResources)> {
        self.tenants.entries()
    }

    /// The machine's resources.
    pub closed spec fn system(&self) -> SystemResources {
        self.system_total
    }

    /// Keys are distinct in both tables.
    pub closed spec fn wf(&self) -> bool {
        self.tenants.wf() && self.quotas.wf()
    }

    /// A manager with no tenants.
    pub fn new(system: SystemResources) -> (r: Self)
        ensures
            r.wf(),
            r.system() == system,
            r.usage() == Map::<Seq<char>, TenantResources>::empty(),
            r.quota_map() == Map::<Seq<char>, ResourceQuota>::empty(),
    {
        ResourceManager { tenants: Table::new(), quotas: Table::new(), system_total: system }
    }

    /// Register (or re-register) a tenant with a quota and no use.
    pub fn register_tenant(&mut self, tenant: &str, quota: ResourceQuota)
        requires
            old(self).wf(),
        ensures
            final(self).wf(),
            final(self).system() == old(self).system(),
            final(self).quota_map() == old(self).quota_map().insert(tenant@, quota),
            final(self).usage().dom() == old(self).usage().dom().insert(tenant@),
            no_use(final(self).usage()[tenant@]),
            forall|k: Seq<char>| k != tenant@ && #[trigger] old(self).usage().contains_key(k) ==>
                final(self).usage()[k] == old(self).usage()[k],
    {
        self.quotas.insert(tenant.to_string(), quota);
        let fresh = TenantResources { memory_bytes: 0, cpu_time_ms: 0, disk_bytes: 0, bandwidth_bytes: 0, io_operations: 0 };
        self.tenants.insert(tenant.to_string(), fresh);
    }

    /// Forget a tenant's quota and use.
    pub fn unregister_tenant(&mut self, tenant: &str)
        requires
            old(self).wf(),
        ensures
            final(self).wf(),
            final(self).system() == old(self).system(),
            final(self).quota_map() == old(self).quota_map().remove(tenant@),
            final(self).usage() == old(self).usage().remove(tenant@),
    {
        let key = tenant.to_string();
        let _ = self.quotas.remove(&key);
        let _ = self.tenants.remove(&key);
    }

    /// Whether the tenant is registered with a quota and its memory and disk
    /// use plus `additional` stay within that quota.
    pub fn can_allocate(&self, tenant: &str, additional: &TenantResources) -> (r: bool)
        requires
            self.wf(),
            self.usage().contains_key(tenant@) && self.quota_map().contains_key(tenant@) ==>
                sums_fit(self.usage()[tenant@], *additional, self.quota_map()[tenant@]),
        ensures
            r <==> (self.usage().contains_key(tenant@) && self.quota_map().contains_key(tenant@)
                && fits_quota(self.usage()[tenant@], *additional, self.quota_map()[tenant@])),
    {
        let key = tenant.to_string();
        match (self.tenants.get(&key), self.quotas.get(&key)) {
            (Some(used), Some(quota)) => {
                let new_mem = used.memory_bytes + additional.memory_bytes;
                let new_disk = used.disk_bytes + additional.disk_bytes;
                new_mem <= quota.max_memory_mb * 1024 * 1024 && new_disk <= quota.max_disk_mb * 1024 * 1024
            },
            _ => false,
        }
    }

    /// Add to a tenant's use: refused ("Quota exceeded") unless
    /// `can_allocate` holds; memory, disk and bandwidth are raised.
    pub fn allocate(&mut self, tenant: &str, resources: &TenantResources) -> (r: core::result::Result<(), String>)
        requires
            old(self).wf(),
            old(self).usage().contains_key(tenant@) && old(self).quota_map().contains_key(tenant@) ==>
                sums_fit(old(self).usage()[tenant@], *resources, old(self).quota_map()[tenant@]),
        ensures
            final(self).wf(),
            final(self).system() == old(self).system(),
            final(self).quota_map() == old(self).quota_map(),
            r is Ok <==> (old(self).usage().contains_key(tenant@) && old(self).quota_map().contains_key(tenant@)
                && fits_quota(old(self).usage()[tenant@], *resources, old(self).quota_map()[tenant@])),
            r matches Err(e) ==> e@ == "Quota exceeded"@ && final(self).usage() == old(self).usage(),
            r is Ok ==> final(self).usage() == old(self).usage().insert(tenant@,
                allocated(old(self).usage()[tenant@], *resources)),
    {
        if !self.can_allocate(tenant, resources) {
            proof { reveal_strlit("Quota exceeded"); }
            return Err("Quota exceeded".to_string());
        }
        let key = tenant.to_string();
        let used = match self.tenants.get(&key) {
            Some(u) => *u,
            None => {
                proof { reveal_strlit("Tenant not registered"); }
                return Err("Tenant not registered".to_string());
            },
        };
        let updated = TenantResources {
            memory_bytes: used.memory_bytes + resources.memory_bytes,
            disk_bytes: used.disk_bytes + resources.disk_bytes,
            bandwidth_bytes: used.bandwidth_bytes + resources.bandwidth_bytes,
            ..used
        };
        self.tenants.insert(key, updated);
        Ok(())
    }

    /// Lower a registered tenant's memory, disk and bandwidth use, not below
    /// zero; an unknown tenant is left alone.
    pub fn release(&mut self, tenant: &str, resources: &TenantResources)
        requires
            old(self).wf(),
        ensures
            final(self).wf(),
            final(self).system() == old(self).system(),
            final(self).quota_map() == old(self).quota_map(),
            old(self).usage().contains_key(tenant@) ==> final(self).usage() == old(self).usage().insert(tenant@,
                released(old(self).usage()[tenant@], *resources)),
            !old(self).usage().contains_key(tenant@) ==> final(self).usage() == old(self).usage(),
    {
        let key = tenant.to_string();
        let used = match self.tenants.get(&key) {
            Some(u) => *u,
            None => return,
        };
        let updated = TenantResources {
            memory_bytes: used.memory_bytes.saturating_sub(resources.memory_bytes),
            disk_bytes: used.disk_bytes.saturating_sub(resources.disk_bytes),
            bandwidth_bytes: used.bandwidth_bytes.saturating_sub(resources.bandwidth_bytes),
            ..used
        };
        self.tenants.insert(key, updated);
    }

    /// A tenant's use and quota, when both are known.
    pub fn usage_of(&self, tenant: &str) -> (r: Option<(TenantResources, ResourceQuota)>)
        requires
            self.wf(),
        ensures
            r is Some <==> (self.usage().contains_key(tenant@) && self.quota_map().contains_key(tenant@)),
            r matches Some(p) ==> p.0 == self.usage()[tenant@] && p.1 == self.quota_map()[tenant@],
    {
        let key = tenant.to_string();
        match (self.tenants.get(&key), self.quotas.get(&key)) {
            (Some(u), Some(q)) => Some((*u, *q)),
            _ => None,
        }
    }

    /// The registered tenants, in registration order.
    pub fn tenant_names(&self) -> (r: Vec<String>)
        ensures
            crate::table::string_views(r@) == crate::table::entry_keys(self.usage_entries()),
    {
        let mut r: Vec<String> = Vec::new();
        let mut i: usize = 0;
        while i < self.tenants.len()
            invariant
                i <= self.usage_entries().len(),
                crate::table::string_views(r@) == crate::table::entry_keys(self.usage_entries()).take(i as int),
            decreases self.usage_entries().len() - i,
        {
            let e = self.tenants.entry(i);
            let k = e.0.clone();
            let ghost prev = r@;
            r.push(k);
            proof {
                assert(crate::table::string_views(r@) =~= crate::table::string_views(prev).push(e.0@));
                assert(crate::table::entry_keys(self.usage_entries())[i as int] == e.0@);
                assert(crate::table::entry_keys(self.usage_entries()).take(i + 1)
                    =~= crate::table::entry_keys(self.usage_entries()).take(i as int).push(e.0@));
            }
            i = i + 1;
        }
        assert(crate::table::entry_keys(self.usage_entries()).take(self.usage_entries().len() as int)
            =~= crate::table::entry_keys(self.usage_entries()));
        r
    }

    /// What is left of the machine: its memory and disk less the tenants'
    /// use (in whole megabytes, not below zero), and all its cores.
    pub fn get_available(&self) -> (r: SystemResources)
        requires
            memory_sum(self.usage_entries()) <= u64::MAX,
            disk_sum(self.usage_entries()) <= u64::MAX,
        ensures
            r.total_memory_mb == sat_sub(self.system().total_memory_mb, (memory_sum(self.usage_entries()) / 1048576) as u64),
            r.total_cpu_cores == self.system().total_cpu_cores,
            r.total_disk_mb == sat_sub(self.system().total_disk_mb, (disk_sum(self.usage_entries()) / 1048576) as u64),
    {
        let mut used_memory: u64 = 0;
        let mut used_disk: u64 = 0;
        let mut i: usize = 0;
        while i < self.tenants.len()
            invariant
                i <= self.usage_entries().len(),
                memory_sum(self.usage_entries()) <= u64::MAX,
                disk_sum(self.usage_entries()) <= u64::MAX,
                used_memory == memory_sum(self.usage_entries().take(i as int)),
                used_disk == disk_sum(self.usage_entries().take(i as int)),
            decreases self.usage_entries().len() - i,
        {
            let e = self.tenants.entry(i);
            proof {
                assert(self.usage_entries().take(i + 1).drop_last() =~= self.usage_entries().take(i as int));
                lemma_sums_prefix(self.usage_entries(), i + 1);
            }
            used_memory = used_memory + e.1.memory_bytes;
            used_disk = used_disk + e.1.disk_bytes;
            i = i + 1;
        }
        assert(self.usage_entries().take(self.usage_entries().len() as int) =~= self.usage_entries());
        SystemResources {
            total_memory_mb: self.system_total.total_memory_mb.saturating_sub(used_memory / 1024 / 1024),
            total_cpu_cores: self.system_total.total_cpu_cores,
            total_disk_mb: self.system_total.total_disk_mb.saturating_sub(used_disk / 1024 / 1024),
        }
    }
}

/// Releasing what was just allocated gives back the use from before.
pub proof fn law_release_undoes_allocate(used: TenantResources, r: TenantResources, quota: ResourceQuota)
    requires
        sums_fit(used, r, quota),
    ensures
        released(allocated(used, r), r) == used,
{
}

/// An allocation is accepted only when it keeps the tenant within its
/// quota: a tenant whose memory or disk use plus the request would pass
/// the quota is refused, and after an accepted allocation the tenant's
/// memory and disk use are within the quota.
pub proof fn law_allocation_respects_quota(used: TenantResources, extra: TenantResources, quota: ResourceQuota)
    requires
        sums_fit(used, extra, quota),
    ensures
        used.memory_bytes + extra.memory_bytes > quota.max_memory_mb * 1048576 ==> !fits_quota(used, extra, quota),
        used.disk_bytes + extra.disk_bytes > quota.max_disk_mb * 1048576 ==> !fits_quota(used, extra, quota),
        used.memory_bytes + extra.memory_bytes <= quota.max_memory_mb * 1048576
            && used.disk_bytes + extra.disk_bytes <= quota.max_disk_mb * 1048576 ==> fits_quota(used, extra, quota),
        fits_quota(used, extra, quota) ==> allocated(used, extra).memory_bytes <= quota.max_memory_mb * 1048576
            && allocated(used, extra).disk_bytes <= quota.max_disk_mb * 1048576,
{
}

/// The tenants' use is counted tenant by tenant: no tenants use nothing,
/// and one more tenant adds exactly its memory and disk use.
pub proof fn law_use_sums_count_each_tenant(t: Seq<(String, TenantResources)>, x: (String, TenantResources))
    ensures
        memory_sum(Seq::<(String, TenantResources)>::empty()) == 0,
        disk_sum(Seq::<(String, TenantResources)>::empty()) == 0,
        memory_sum(t.push(x)) == memory_sum(t) + x.1.memory_bytes,
        disk_sum(t.push(x)) == disk_sum(t) + x.1.disk_bytes,
{
    assert(t.push(x).drop_last() =~= t);
}

/// What is available never exceeds the machine less any one tenant's use:
/// for every tenant, the available memory and disk (as `get_available`
/// reports them, in whole megabytes) are at most the machine's less that
/// tenant's use.
pub proof fn law_available_excludes_each_tenant(t: Seq<(String, TenantResources)>, sys: SystemResources, i: int)
    requires
        0 <= i < t.len(),
        memory_sum(t) <= u64::MAX,
        disk_sum(t) <= u64::MAX,
    ensures
        sat_sub(sys.total_memory_mb, (memory_sum(t) / 1048576) as u64)
            <= sat_sub(sys.total_memory_mb, (t[i].1.memory_bytes / 1048576) as u64),
        sat_sub(sys.total_disk_mb, (disk_sum(t) / 1048576) as u64)
            <= sat_sub(sys.total_disk_mb, (t[i].1.disk_bytes / 1048576) as u64),
{
    lemma_sum_covers_entry(t, i);
    assert(t[i].1.memory_bytes as nat / 1048576 <= memory_sum(t) / 1048576) by (nonlinear_arith)
        requires t[i].1.memory_bytes as nat <= memory_sum(t);
    assert(t[i].1.disk_bytes as nat / 1048576 <= disk_sum(t) / 1048576) by (nonlinear_arith)
        requires t[i].1.disk_bytes as nat <= disk_sum(t);
}

proof fn lemma_sum_covers_entry(t: Seq<(String, TenantResources)>, i: int)
    requires
        0 <= i < t.len(),
    ensures
        t[i].1.memory_bytes <= memory_sum(t),
        t[i].1.disk_bytes <= disk_sum(t),
    decreases t.len(),
{
    if i < t.len() - 1 {
        lemma_sum_covers_entry(t.drop_last(), i);
        assert(t.drop_last()[i] == t[i]);
    }
}

proof fn lemma_sums_prefix(e: Seq<(String, TenantResources)>, n: int)
    requires
        0 <= n <= e.len(),
    ensures
        memory_sum(e.take(n)) <= memory_sum(e),
        disk_sum(e.take(n)) <= disk_sum(e),
    decreases e.len(),
{
    if n < e.len() {
        assert(e.drop_last().take(n) =~= e.take(n));
        lemma_sums_prefix(e.drop_last(), n);
    } else {
        assert(e.take(n) =~= e);
    }
}

/// Calls `sys_info::mem_info()` and hands back its `total` (kilobytes), or
/// `None` where the call fails. Nothing is claimed of the reading.
#[verifier::external_body]
fn system_memory_kb() -> (r: Option<u64>)
{
    match sys_info::mem_info() {
        Ok(m) => Some(m.total),
        Err(_) => None,
    }
}

/// Calls `num_cpus::get()`: the number of logical processors. Claimed: at
/// least one, as that crate documents.
#[verifier::external_body]
fn cpu_count() -> (r: usize)
    ensures
        r >= 1,
{
    num_cpus::get()
}

/// The machine's memory in megabytes from a reading in kilobytes (8192 kB
/// when there is none), its cores, and a fixed 10240 MB of disk.
pub fn system_resources_from(memory_kb: Option<u64>, cores: usize) -> (r: SystemResources)
    ensures
        r.total_memory_mb == (match memory_kb { Some(k) => k, None => 8192u64 }) / 1024,
        r.total_cpu_cores == cores as u32,
        r.total_disk_mb == 10240,
{
    let kb = match memory_kb {
        Some(k) => k,
        None => 8192,
    };
    SystemResources { total_memory_mb: kb / 1024, total_cpu_cores: cores as u32, total_disk_mb: 10240 }
}

/// The machine's resources as the system reports them.
pub fn detect_system_resources() -> (r: SystemResources)
    ensures
        r.total_disk_mb == 10240,
        r.total_memory_mb <= u64::MAX / 1024,
{
    system_resources_from(system_memory_kb(), cpu_count())
}

} // verus!
