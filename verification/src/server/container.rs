//! Container status and the predefined service images.

use vstd::prelude::*;
use crate::server::resource::ResourceQuota;

verus! {

/// The status of a container.
#[derive(Debug, Clone)]
pub struct ContainerStatus {
    pub id: String,
    pub running: bool,
    pub uptime_secs: u64,
}

/// The status of container `id`, started at `started_at`, seen at `now`.
pub fn container_status(id: &str, running: bool, started_at: u64, now: u64) -> (r: ContainerStatus)
    requires
        started_at <= now,
    ensures
        r.id@ == id@,
        r.running == running,
        r.uptime_secs == now - started_at,
{
    ContainerStatus { id: id.to_string(), running, uptime_secs: now - started_at }
}

/// A predefined service: its name, the command that runs it, and the quota
/// it needs.
#[derive(Debug)]
pub struct ServiceImage {
    pub name: String,
    pub command: String,
    pub args: Vec<String>,
    pub required_quota: ResourceQuota,
}

/// The text of each argument.
pub open spec fn arg_views(args: Seq<String>) -> Seq<Seq<char>> {
    Seq::new(args.len(), |i: int| args[i]@)
}

impl ServiceImage {
    /// nginx in the foreground, with the default quota.
    pub fn nginx() -> (r: Self)
        ensures
            r.name@ == "nginx:latest"@,
            r.command@ == "nginx"@,
            arg_views(r.args@) == seq!["-g"@, "daemon off;"@],
            r.required_quota.max_memory_mb == 512,
            r.required_quota.max_cpu_percent == 25,
            r.required_quota.max_disk_mb == 1024,
            r.required_quota.max_bandwidth_mb == 100,
            r.required_quota.max_processes == 10,
            r.required_quota.max_open_files == 256,
    {
        let mut args: Vec<String> = Vec::new();
        args.push("-g".to_string());
        args.push("daemon off;".to_string());
        let r = ServiceImage {
            name: "nginx:latest".to_string(),
            command: "nginx".to_string(),
            args,
            required_quota: ResourceQuota::default(),
        };
        assert(arg_views(r.args@) =~= seq!["-g"@, "daemon off;"@]);
        r
    }

    /// Python's HTTP server on port 8080, with a small quota.
    pub fn static_server() -> (r: Self)
        ensures
            r.name@ == "static-server"@,
            r.command@ == "python3"@,
            arg_views(r.args@) == seq!["-m"@, "http.server"@, "8080"@],
            r.required_quota.max_memory_mb == 64,
            r.required_quota.max_cpu_percent == 5,
            r.required_quota.max_disk_mb == 100,
            r.required_quota.max_bandwidth_mb == 50,
            r.required_quota.max_processes == 2,
            r.required_quota.max_open_files == 32,
    {
        let mut args: Vec<String> = Vec::new();
        args.push("-m".to_string());
        args.push("http.server".to_string());
        args.push("8080".to_string());
        let r = ServiceImage {
            name: "static-server".to_string(),
            command: "python3".to_string(),
            args,
            required_quota: ResourceQuota {
                max_memory_mb: 64,
                max_cpu_percent: 5,
                max_disk_mb: 100,
                max_bandwidth_mb: 50,
                max_processes: 2,
                max_open_files: 32,
            },
        };
        assert(arg_views(r.args@) =~= seq!["-m"@, "http.server"@, "8080"@]);
        r
    }
}

} // verus!
