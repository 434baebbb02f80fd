//! Health and alerting records of the metrics subsystem.
use vstd::prelude::*;

verus! {

/// The health of the database.
#[derive(Debug, Clone, Copy, PartialEq, Eq, Structural)]
pub enum HealthStatus {
    Healthy,
    Warning,
    Critical,
    Unknown,
}

/// How serious an alert is.
#[derive(Debug, Clone, Copy, PartialEq, Eq, Structural)]
pub enum AlertSeverity {
    Info,
    Warning,
    Critical,
    Emergency,
}

/// An alert raised by a component.
#[derive(Debug, Clone)]
pub struct Alert {
    pub id: String,
    pub severity: AlertSeverity,
    pub message: String,
    pub component: String,
    pub timestamp: u64,
    pub acknowledged: bool,
}

/// An alert survives a cleanup at time `now` (seconds): unacknowledged
/// alerts always, acknowledged ones only where raised within the last hour.
pub open spec fn alert_kept(a: Alert, now: u64) -> bool {
    !a.acknowledged || a.timestamp > (if now >= 3600 { now - 3600 } else { 0 })
}

/// The alerts that survive a cleanup at time `now`, in order.
pub open spec fn kept_alerts(alerts: Seq<Alert>, now: u64) -> Seq<Alert>
    decreases alerts.len(),
{
    if alerts.len() == 0 {
        Seq::empty()
    } else {
        let rest = kept_alerts(alerts.drop_last(), now);
        if alert_kept(alerts.last(), now) {
            rest.push(alerts.last())
        } else {
            rest
        }
    }
}

/// Cleans up alerts at time `now` (seconds): acknowledged alerts raised an
/// hour or more before are dropped, the others kept in order.
pub fn prune_alerts(alerts: Vec<Alert>, now: u64) -> (r: Vec<Alert>)
    ensures
        r@ == kept_alerts(alerts@, now),
{
    let ghost all = alerts@;
    let cutoff = now.saturating_sub(3600);
    let mut rest = alerts;
    let mut out: Vec<Alert> = Vec::new();
    let n = rest.len();
    let mut i: usize = 0;
    proof {
        assert(all.take(0) =~= Seq::<Alert>::empty());
        assert(all.skip(0) =~= all);
    }
    while rest.len() > 0
        invariant
            i <= all.len(),
            all.len() == n,
            rest@ == all.skip(i as int),
            out@ == kept_alerts(all.take(i as int), now),
            cutoff == (if now >= 3600 { now - 3600 } else { 0 }),
        decreases rest@.len(),
    {
        let a = rest.remove(0);
        proof {
            assert(a == all[i as int]);
            assert(rest@ =~= all.skip(i + 1));
            let t = all.take(i + 1);
            assert(t.drop_last() =~= all.take(i as int));
            assert(t.last() == a);
        }
        if !a.acknowledged || a.timestamp > cutoff {
            out.push(a);
        }
        i = i + 1;
    }
    proof {
        assert(all.take(i as int) =~= all);
    }
    out
}

/// The outcome of one health check.
#[derive(Debug, Clone)]
pub struct HealthCheckResult {
    pub passed: bool,
    pub message: String,
    pub duration_ms: u64,
    pub timestamp: u64,
}

/// Where and how metrics are exported in Prometheus form.
#[derive(Debug, Clone)]
pub struct PrometheusConfig {
    pub enabled: bool,
    pub endpoint: String,
    pub port: u16,
    pub namespace: String,
}

} // verus!
