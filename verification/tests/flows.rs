use durable_streams::path_map::PathMap;
use durable_streams::store::offset::format_offset;
use durable_streams::subscription_auth::ServiceJwtError;
use durable_streams::subscriptions::config::{
    RawCreateRequest, SubscriptionConfig, SubscriptionKind, SubscriptionStatus,
    MAX_STREAMS_PER_SUBSCRIPTION,
};
use durable_streams::subscriptions::creation::{wanted_wake_stream, WakeStreamLookup};
use durable_streams::subscriptions::events::{draw_seeds, with_draw};
use durable_streams::subscriptions::links::{StreamLink, StreamStatus, StreamTable};
use durable_streams::subscriptions::manager::{Findings, SubscriptionManager};
use durable_streams::subscriptions::paths::subscription_key;
use durable_streams::subscriptions::persistence::{
    next_write_delay_ms, BackgroundWriters, SnapshotOrder, SubscriptionCount,
};
use durable_streams::subscriptions::reply::{CallbackRequest, Method, Reply, Req, ReqBody};
use durable_streams::subscriptions::secrets::create_secrets;
use durable_streams::subscriptions::startup::{load_persisted_state, secrets_are_missing};
use durable_streams::subscriptions::state::ManagerState;
use durable_streams::subscriptions::steps::{Finished, Surroundings};
use durable_streams::subscriptions::subscription::{AckRequest, Delivery, StreamInfo, Subscription};
use durable_streams::subscriptions::token::{
    draw_jitter, generate_token, jitter_from, token_matches, validate_token, WakeSeed,
};

const ZERO: &str = "0000000000000000_0000000000000000";
const BEFORE_FIRST: &str = "-1";
const NOW: u64 = 1_800_000_000_000;

struct Stream {
    path: String,
    status: StreamStatus,
}

struct World {
    manager: SubscriptionManager,
    streams: Vec<Stream>,
    next_id: u64,
    now_ms: u64,
    sent: Vec<Delivery>,
}

struct Claim {
    wake_id: Option<String>,
    generation: u64,
    token: String,
    streams: Vec<StreamInfo>,
}

fn some(text: &str) -> Option<String> {
    Some(text.to_string())
}

fn pull(pattern: Option<&str>, streams: &[&str], wake_stream: &str, ttl: Option<u64>) -> ReqBody {
    ReqBody::Create(RawCreateRequest {
        kind: "pull-wake".to_string(),
        pattern: pattern.map(str::to_string),
        streams: if streams.is_empty() {
            None
        } else {
            Some(streams.iter().map(|path| path.to_string()).collect())
        },
        webhook_url: None,
        wake_stream: some(wake_stream),
        lease_ttl_ms: ttl,
        description: None,
    })
}

fn fresh_manager(public: Option<&str>) -> SubscriptionManager {
    let (ring, secret) = create_secrets(NOW).ok().unwrap();
    SubscriptionManager::new(
        ManagerState::new(),
        ring,
        secret,
        2_592_000_000,
        300_000,
        public.map(str::to_string),
        true,
    )
    .ok()
    .unwrap()
}

fn subscription(kind: SubscriptionKind, pattern: Option<&str>, explicit: &[&str]) -> Subscription {
    Subscription {
        id: "sub-1".into(),
        stream_root: "/root".into(),
        config: SubscriptionConfig {
            kind,
            pattern: pattern.map(str::to_string),
            streams: explicit.iter().map(|path| path.to_string()).collect(),
            webhook_url: if kind == SubscriptionKind::Webhook {
                some("http://127.0.0.1:1/hook")
            } else {
                None
            },
            wake_stream: if kind == SubscriptionKind::PullWake { some("wake/pool") } else { None },
            lease_ttl_ms: 600_000,
            description: None,
        },
        callback_base_url: "http://localhost:4562".into(),
        created_at: "2026-08-28T00:00:00Z".into(),
        status: SubscriptionStatus::Active,
        streams: PathMap::new(),
        generation: 0,
        wake_id: None,
        wake_snapshot: PathMap::new(),
        token: None,
        holder: None,
        lease_nonce: 0,
        retry_count: 0,
        next_attempt_at_ms: None,
        lease_expires_at_ms: None,
        wake_trigger: None,
        wake_delivery_pending: false,
    }
}

impl World {
    fn new() -> World {
        World {
            manager: fresh_manager(Some("http://localhost:4562")),
            streams: Vec::new(),
            next_id: 100,
            now_ms: NOW,
            sent: Vec::new(),
        }
    }

    fn table(&self) -> StreamTable {
        let mut table = PathMap::new();
        for stream in &self.streams {
            table.insert(stream.path.clone(), stream.status);
        }
        table
    }

    fn create(&mut self, path: &str) -> u64 {
        self.next_id += 1;
        let id = self.next_id;
        self.streams.push(Stream {
            path: path.to_string(),
            status: StreamStatus {
                id,
                tail_bytes: 0,
                fenced: false,
                expired: false,
                soft_deleted: false,
            },
        });
        self.notice(path);
        id
    }

    fn drop_stream(&mut self, path: &str) -> u64 {
        let at = self.streams.iter().position(|stream| stream.path == path).unwrap();
        self.streams.remove(at).status.id
    }

    fn notice(&mut self, path: &str) {
        let table = self.table();
        let seeds = draw_seeds(self.manager.state.subscriptions.len()).unwrap();
        let secret = self.manager.token_secret.clone();
        let (_, deliveries) =
            self.manager.state.on_stream_append(path, &table, &secret, &seeds, self.now_ms);
        self.sent.extend(deliveries);
    }

    fn append(&mut self, path: &str, bytes: u64) {
        let at = self.streams.iter().position(|stream| stream.path == path).unwrap();
        self.streams[at].status.tail_bytes += bytes;
        self.notice(path);
    }

    fn delete(&mut self, path: &str) {
        let at = self.streams.iter().position(|stream| stream.path == path).unwrap();
        self.streams[at].status.fenced = true;
        let id = self.streams[at].status.id;
        self.retired(path, id, true);
        self.drop_stream(path);
    }

    fn retired(&mut self, path: &str, id: u64, kept: bool) -> bool {
        let table = self.table();
        let seeds = draw_seeds(self.manager.state.subscriptions.len()).unwrap();
        let secret = self.manager.token_secret.clone();
        let change =
            self.manager.state.on_stream_deleted(path, id, &table, &secret, &seeds, self.now_ms);
        match change {
            Some(change) => {
                let deliveries = self.manager.state.settle_retirement(change, kept);
                self.sent.extend(deliveries);
                true
            }
            None => false,
        }
    }

    fn request(
        &mut self,
        method: Method,
        path: &str,
        body: ReqBody,
        token: Option<&str>,
        found: WakeStreamLookup,
        kept: bool,
    ) -> Finished {
        let req = Req {
            method,
            path: path.to_string(),
            content_type: some("application/json"),
            authorization: token.map(|token| format!("Bearer {}", token)),
            body_len: 64,
            body,
        };
        let findings = Findings {
            found,
            auth: Ok(()),
            keys_fresh: true,
            created_at: "2026-08-28T00:00:00Z".to_string(),
        };
        let table = self.table();
        let seed = WakeSeed::draw().unwrap();
        let prepared = self.manager.handle(req, findings, &table, &seed, self.now_ms);
        self.manager.finish(prepared, kept)
    }

    fn put(&mut self, path: &str, body: ReqBody) -> Finished {
        let open = WakeStreamLookup::Live { closed: false, is_json: true };
        self.request(Method::Put, path, body, None, open, true)
    }

    fn post(&mut self, path: &str, body: ReqBody, token: Option<&str>) -> Finished {
        let open = WakeStreamLookup::Live { closed: false, is_json: true };
        let finished = self.request(Method::Post, path, body, token, open, true);
        finished
    }

    fn claim(&mut self, worker: &str) -> Claim {
        let path = "/root/__ds/subscriptions/sub-1/claim";
        match self.post(path, ReqBody::Claim(worker.to_string()), None).reply {
            Reply::Claimed { wake_id, generation, token, streams, .. } => {
                Claim { wake_id, generation, token, streams }
            }
            other => panic!("claim answered {}", other.status()),
        }
    }

    fn ack(&mut self, claim: &Claim, acks: &[(&str, &str)], done: bool) -> Finished {
        let body = ReqBody::Callback(CallbackRequest {
            wake_id: claim.wake_id.clone(),
            generation: Some(claim.generation),
            acks: Some(
                acks.iter()
                    .map(|(stream, offset)| AckRequest {
                        stream: some(stream),
                        path: None,
                        offset: offset.to_string(),
                    })
                    .collect(),
            ),
            done: Some(done),
        });
        let finished = self.post("/root/__ds/subscriptions/sub-1/ack", body, Some(&claim.token));
        finished
    }

    fn sub(&self, root: &str, id: &str) -> &Subscription {
        self.manager.state.subscriptions.get(&subscription_key(root, id)).unwrap()
    }

    fn sub_1(&self) -> &Subscription {
        self.sub("/root", "sub-1")
    }

    fn insert(&mut self, sub: Subscription) {
        self.manager.state.subscriptions.insert(subscription_key("/root", "sub-1"), sub);
    }

    fn around<R>(&mut self, run: impl Fn(&mut ManagerState, &Surroundings<'_>) -> R) -> R {
        let table = self.table();
        let seed = WakeSeed::draw().unwrap();
        let secret = self.manager.token_secret.clone();
        let around =
            Surroundings { table: &table, secret: &secret, seed: &seed, now_ms: self.now_ms };
        run(&mut self.manager.state, &around)
    }
}

fn tail_of(claim: &Claim, path: &str) -> String {
    claim.streams.iter().find(|info| info.path == path).unwrap().tail_offset.clone()
}

#[test]
fn pull_wake_requires_an_existing_open_json_wake_stream() {
    let mut world = World::new();
    let body = || pull(Some("events/*"), &[], "wake/missing", None);
    let path = "/root/__ds/subscriptions/sub-1";
    for found in [
        WakeStreamLookup::Missing,
        WakeStreamLookup::Gone,
        WakeStreamLookup::Expired,
        WakeStreamLookup::Live { closed: true, is_json: true },
        WakeStreamLookup::Live { closed: false, is_json: false },
    ] {
        let response = world.request(Method::Put, path, body(), None, found, true);
        assert_eq!(response.reply.status(), 409, "{:?}", found);
    }
}

#[test]
fn pull_wake_stream_is_not_matched_by_its_own_glob() {
    let mut world = World::new();
    world.create("/root/wake/pool");
    world.create("/root/events/a");
    let body = pull(Some("**"), &[], "wake/pool", Some(600_000));
    assert_eq!(world.put("/root/__ds/subscriptions/sub-1", body).reply.status(), 201);
    world.append("/root/events/a", 12);
    assert_eq!(world.sent.len(), 1);
    let claim = world.claim("worker-1");
    assert!(claim.streams.iter().all(|stream| stream.path != "wake/pool"));
    let tail = tail_of(&claim, "events/a");
    let acked = world.ack(&claim, &[("events/a", &tail)], true);
    assert_eq!(acked.reply.status(), 200);
    assert!(
        acked.delivery.is_none(),
        "acking the only source event must not generate a wake about the wake stream"
    );
}

#[test]
fn dynamically_discovered_empty_stream_is_not_pending() {
    let mut world = World::new();
    world.create("/root/wake/pool");
    let body = pull(Some("**"), &[], "wake/pool", None);
    assert_eq!(world.put("/root/__ds/subscriptions/sub-1", body).reply.status(), 201);
    world.create("/root/events/new");
    assert!(world.sent.is_empty());
    assert_eq!(world.sub_1().generation, 0);
    assert!(!world.sub_1().has_pending_work(&world.table()));
}

#[test]
fn deleting_a_stream_fences_its_wake_and_allows_the_next_stream_to_wake() {
    let mut world = World::new();
    world.create("/root/wake/pool");
    world.create("/root/events/a");
    world.create("/root/events/b");
    let body = pull(Some("events/*"), &[], "wake/pool", None);
    assert_eq!(world.put("/root/__ds/subscriptions/sub-1", body).reply.status(), 201);
    world.append("/root/events/a", 12);
    let first = world.sent.len();
    world.delete("/root/events/a");
    world.append("/root/events/b", 12);
    assert!(
        world.sent.len() > first,
        "the outstanding wake for the deleted stream must not suppress later work"
    );
}

#[test]
fn a_delayed_delete_transition_cannot_unlink_a_replacement_incarnation() {
    let mut world = World::new();
    world.create("/root/wake/pool");
    let old = world.create("/root/events/a");
    let body = pull(None, &["events/a"], "wake/pool", None);
    assert_eq!(world.put("/root/__ds/subscriptions/sub-1", body).reply.status(), 201);
    world.drop_stream("/root/events/a");
    let replacement = world.create("/root/events/a");
    assert_ne!(replacement, old);
    world.retired("/root/events/a", old, true);
    let link = world.sub_1().streams.get("events/a");
    assert_eq!(link.unwrap().stream_id, Some(replacement));
}

#[test]
fn a_failed_delete_transition_is_reported_and_rolled_back() {
    let mut world = World::new();
    world.create("/root/wake/pool");
    let id = world.create("/root/events/a");
    let body = pull(Some("events/*"), &[], "wake/pool", None);
    assert_eq!(world.put("/root/__ds/subscriptions/sub-1", body).reply.status(), 201);
    world.append("/root/events/a", 12);
    let wake = world.sub_1().wake_id.clone();
    assert!(wake.is_some());
    world.streams[1].status.fenced = true;
    assert!(world.retired("/root/events/a", id, false));
    assert_eq!(world.sub_1().wake_id, wake);
    assert_eq!(world.sub_1().generation, 1);
    assert!(world.sub_1().streams.contains("events/a"));
}

#[test]
fn deleting_an_explicit_stream_does_not_leave_phantom_pending_work() {
    let mut world = World::new();
    world.create("/root/wake/pool");
    world.create("/root/manual/a");
    let body = pull(None, &["manual/a"], "wake/pool", None);
    assert_eq!(world.put("/root/__ds/subscriptions/sub-1", body).reply.status(), 201);
    world.append("/root/manual/a", 12);
    let wakes = world.sent.len();
    world.delete("/root/manual/a");
    let claim = world.post(
        "/root/__ds/subscriptions/sub-1/claim",
        ReqBody::Claim("worker-1".to_string()),
        None,
    );
    assert_eq!(claim.reply.status(), 409, "an absent explicit stream is not pending");
    assert_eq!(world.sent.len(), wakes);
    world.create("/root/manual/a");
    world.append("/root/manual/a", 12);
    assert!(world.sent.len() > wakes);
}

#[test]
fn registered_wake_streams_are_excluded_from_every_subscription() {
    let mut world = World::new();
    world.create("/root/wake/a");
    world.create("/root/wake/b");
    for (id, wake_stream) in [("sub-a", "wake/a"), ("sub-b", "wake/b")] {
        let body = pull(Some("**"), &[], wake_stream, None);
        let path = format!("/root/__ds/subscriptions/{id}");
        assert_eq!(world.put(&path, body).reply.status(), 201);
    }
    for id in ["sub-a", "sub-b"] {
        assert!(!world.sub("/root", id).streams.contains("wake/a"));
        assert!(!world.sub("/root", id).streams.contains("wake/b"));
    }
    world.append("/root/wake/a", 12);
    for id in ["sub-a", "sub-b"] {
        assert_eq!(world.sub("/root", id).generation, 0);
    }
}

#[test]
fn retroactive_wake_stream_exclusion_handles_nested_roots() {
    let mut world = World::new();
    world.create("/root/wake/pool");
    world.create("/root/wake/inner-wake");
    let inner = pull(Some("**"), &[], "inner-wake", None);
    assert_eq!(world.put("/root/wake/__ds/subscriptions/inner", inner).reply.status(), 201);
    assert!(world.sub("/root/wake", "inner").streams.contains("pool"));
    let outer = pull(Some("events/*"), &[], "wake/pool", None);
    assert_eq!(world.put("/root/__ds/subscriptions/outer", outer).reply.status(), 201);
    assert!(!world.sub("/root/wake", "inner").streams.contains("pool"));
}

#[test]
fn expired_glob_membership_is_pruned_at_the_stream_limit() {
    let mut world = World::new();
    let mut sub = subscription(SubscriptionKind::Webhook, Some("**"), &[]);
    for index in 0..MAX_STREAMS_PER_SUBSCRIPTION {
        sub.streams.insert(
            format!("existing/{index}"),
            StreamLink {
                explicit: false,
                glob: true,
                acked_offset: format_offset(0),
                stream_id: None,
            },
        );
    }
    world.insert(sub);
    world.notice("/root/overflow");
    assert_eq!(world.sub_1().streams.len(), 1);
    assert!(world.sub_1().streams.contains("overflow"));
    assert!(!world.sub_1().streams.contains("existing/0"));
}

#[test]
fn deleting_and_recreating_a_snapshotted_stream_fences_the_old_worker() {
    let mut world = World::new();
    world.create("/root/wake/pool");
    world.create("/root/events/b");
    world.create("/root/events/c");
    let body = pull(Some("events/*"), &[], "wake/pool", Some(600_000));
    assert_eq!(world.put("/root/__ds/subscriptions/sub-1", body).reply.status(), 201);
    world.append("/root/events/b", 12);
    world.append("/root/events/c", 12);
    let claim = world.claim("worker-1");
    let tail = tail_of(&claim, "events/c");
    world.delete("/root/events/c");
    world.create("/root/events/c");
    world.append("/root/events/c", 12);
    assert_eq!(world.ack(&claim, &[("events/c", &tail)], true).reply.status(), 409);
}

#[test]
fn failed_pull_wake_delivery_retries_after_the_wake_stream_returns() {
    let mut world = World::new();
    world.create("/root/wake/pool");
    world.create("/root/events/a");
    let body = pull(Some("events/*"), &[], "wake/pool", None);
    assert_eq!(world.put("/root/__ds/subscriptions/sub-1", body).reply.status(), 201);
    world.append("/root/events/a", 12);
    let id = world.sent[0].id();
    assert!(world.manager.state.delivery_is_current(&id));
    let at = world.manager.state.schedule_retry(&id, 0, NOW).unwrap();
    assert!(at > NOW && at <= NOW + 60_000);
    assert_eq!(world.sub_1().status, SubscriptionStatus::Failed);
    assert_eq!(world.sub_1().retry_count, 1);
    world.manager.state.pull_wake_delivered(&id);
    assert_eq!(world.sub_1().status, SubscriptionStatus::Active);
    assert!(!world.sub_1().wake_delivery_pending);
}

#[test]
fn restart_reconciles_a_glob_append_missing_from_the_last_snapshot() {
    let mut world = World::new();
    world.create("/root/wake/pool");
    let body = pull(Some("events/*"), &[], "wake/pool", None);
    assert_eq!(world.put("/root/__ds/subscriptions/sub-1", body).reply.status(), 201);
    world.next_id += 1;
    world.streams.push(Stream {
        path: "/root/events/a".to_string(),
        status: StreamStatus {
            id: world.next_id,
            tail_bytes: 12,
            fenced: false,
            expired: false,
            soft_deleted: false,
        },
    });
    let table = world.table();
    let seeds = draw_seeds(1).unwrap();
    let secret = world.manager.token_secret.clone();
    let (attempts, _) = world.manager.state.resume(&table, &secret, &seeds, NOW);
    assert_eq!(attempts.len(), 1);
    let link = world.sub_1().streams.get("events/a").unwrap();
    assert_eq!(link.acked_offset, BEFORE_FIRST);
    assert!(world.sub_1().wake_id.is_some());
}

#[test]
fn persisted_subscriptions_refuse_startup_without_their_secrets() {
    let mut world = World::new();
    assert!(!secrets_are_missing(&world.manager.state, false));
    world.insert(subscription(SubscriptionKind::PullWake, None, &["events/a"]));
    assert!(secrets_are_missing(&world.manager.state, false));
    assert!(!secrets_are_missing(&world.manager.state, true));
}

#[test]
fn persisted_retry_deadline_resumes_after_restart() {
    let mut world = World::new();
    world.create("/root/wake/pool");
    world.create("/root/events/a");
    let body = pull(Some("events/*"), &[], "wake/pool", None);
    assert_eq!(world.put("/root/__ds/subscriptions/sub-1", body).reply.status(), 201);
    world.append("/root/events/a", 12);
    let id = world.sent[0].id();
    let at = world.manager.state.schedule_retry(&id, 7, NOW).unwrap();
    assert_eq!(world.sub_1().status, SubscriptionStatus::Failed);
    assert_eq!(world.sub_1().next_attempt_at_ms, Some(at));
    let kept = vec![world.sub_1().copy()];
    let state = match load_persisted_state(1, kept, true) {
        Ok(state) => state,
        Err(_) => panic!("the kept state must load"),
    };
    world.manager.state = state;
    let table = world.table();
    let seeds = draw_seeds(1).unwrap();
    let secret = world.manager.token_secret.clone();
    let (attempts, _) = world.manager.state.resume(&table, &secret, &seeds, NOW + 1);
    assert_eq!(attempts.len(), 1);
    assert_eq!(attempts[0].at_ms, at);
}

#[test]
fn stale_pull_delivery_retry_cannot_erase_a_new_worker_lease() {
    let mut world = World::new();
    world.create("/root/wake/pool");
    world.create("/root/events/a");
    let body = pull(Some("events/*"), &[], "wake/pool", Some(600_000));
    assert_eq!(world.put("/root/__ds/subscriptions/sub-1", body).reply.status(), 201);
    world.append("/root/events/a", 12);
    let id = world.sent[0].id();
    let _ = world.claim("worker-a");
    assert_eq!(world.manager.state.schedule_retry(&id, 0, NOW), None);
    assert_eq!(world.sub_1().holder.as_deref(), Some("worker-a"));
    assert!(world.sub_1().lease_expires_at_ms.is_some());
    assert!(!world.sub_1().wake_delivery_pending);
}

#[test]
fn failed_webhook_delivery_is_fenced_by_the_issued_wake_lease() {
    let mut world = World::new();
    let id = world.create("/root/events/a");
    let mut sub = subscription(SubscriptionKind::Webhook, Some("events/*"), &[]);
    sub.config.lease_ttl_ms = 1000;
    sub.streams.insert(
        "events/a".to_string(),
        StreamLink {
            explicit: false,
            glob: true,
            acked_offset: ZERO.to_string(),
            stream_id: Some(id),
        },
    );
    world.insert(sub);
    world.append("/root/events/a", 12);
    let delivery = world.sent[0].id();
    let lease = world.manager.state.webhook_lease(&delivery).unwrap().unwrap();
    assert_eq!(lease.expires_at_ms, NOW + 1000);
    assert!(world.manager.state.schedule_retry(&delivery, 0, NOW).is_some());
    assert_eq!(world.sub_1().status, SubscriptionStatus::Failed);
    world.now_ms = NOW + 1001;
    let (ran, next) = world.around(|state, around| state.lease_expired(&lease, around));
    assert!(ran);
    assert!(next.is_some());
    assert!(world.sub_1().generation > 1, "the webhook lease must fence a failed delivery");
    assert!(world.sub_1().lease_expires_at_ms.is_some());
    assert!(world.sub_1().holder.is_none());
    assert!(!world.manager.state.delivery_is_current(&delivery));
}

#[test]
fn accepted_webhooks_acknowledge_their_snapshot_when_done() {
    let mut world = World::new();
    let id = world.create("/root/events/a");
    let mut sub = subscription(SubscriptionKind::Webhook, Some("events/*"), &[]);
    sub.streams.insert(
        "events/a".to_string(),
        StreamLink {
            explicit: false,
            glob: true,
            acked_offset: ZERO.to_string(),
            stream_id: Some(id),
        },
    );
    world.insert(sub);
    world.append("/root/events/a", 12);
    let delivery = world.sent[0].id();
    let message = world.manager.state.webhook_message(&delivery, &world.table()).unwrap();
    assert_eq!(message.url, "http://127.0.0.1:1/hook");
    assert_eq!(message.generation, 1);
    assert_eq!(message.streams.len(), 1);
    assert_eq!(
        message.callback_url,
        "http://localhost:4562/root/__ds/subscriptions/sub-1/callback"
    );
    let next = world.around(|state, around| state.webhook_answered(&delivery, true, around));
    assert!(next.is_none());
    assert_eq!(world.sub_1().wake_id, None);
    assert_eq!(world.sub_1().streams.get("events/a").unwrap().acked_offset, format_offset(12));
}

#[test]
fn pull_done_only_acknowledges_explicitly_listed_streams() {
    let mut world = World::new();
    world.create("/root/wake/pool");
    world.create("/root/events/a");
    world.create("/root/events/b");
    let body = pull(Some("events/*"), &[], "wake/pool", None);
    assert_eq!(world.put("/root/__ds/subscriptions/sub-1", body).reply.status(), 201);
    world.append("/root/events/a", 27);
    world.append("/root/events/b", 27);
    let claim = world.claim("worker-1");
    let a_tail = tail_of(&claim, "events/a");
    let response = world.ack(&claim, &[("events/a", &a_tail)], true);
    assert!(matches!(response.reply, Reply::Acknowledged { next_wake: true }));
    assert_eq!(world.sub_1().streams.get("events/a").unwrap().acked_offset, a_tail);
    assert_eq!(world.sub_1().streams.get("events/b").unwrap().acked_offset, ZERO);
    assert!(world.sub_1().has_pending_work(&world.table()));
    assert!(world.sub_1().wake_id.is_some());
}

#[test]
fn duplicate_acks_in_one_request_cannot_regress_a_cursor() {
    let mut world = World::new();
    world.create("/root/wake/pool");
    world.create("/root/events/a");
    let body = pull(None, &["events/a"], "wake/pool", None);
    assert_eq!(world.put("/root/__ds/subscriptions/sub-1", body).reply.status(), 201);
    world.append("/root/events/a", 12);
    let claim = world.claim("worker-1");
    let tail = claim.streams[0].tail_offset.clone();
    let acks = [("events/a", tail.as_str()), ("events/a", ZERO)];
    assert_eq!(world.ack(&claim, &acks, false).reply.status(), 200);
    assert_eq!(world.sub_1().streams.get("events/a").unwrap().acked_offset, tail);
}

#[test]
fn claim_reclaims_a_persisted_lease_that_is_already_expired() {
    let mut world = World::new();
    world.create("/root/wake/pool");
    world.create("/root/events/a");
    let body = pull(None, &["events/a"], "wake/pool", Some(600_000));
    assert_eq!(world.put("/root/__ds/subscriptions/sub-1", body).reply.status(), 201);
    world.append("/root/events/a", 12);
    let first = world.claim("worker-1");
    let mut expired = world.sub_1().copy();
    expired.lease_expires_at_ms = Some(0);
    world.insert(expired);
    let second = world.claim("worker-2");
    assert!(second.generation > first.generation);
    assert_ne!(second.token, first.token);
}

#[test]
fn held_leases_refuse_other_workers() {
    let mut world = World::new();
    world.create("/root/wake/pool");
    world.create("/root/events/a");
    let body = pull(None, &["events/a"], "wake/pool", Some(600_000));
    world.put("/root/__ds/subscriptions/sub-1", body);
    world.append("/root/events/a", 12);
    let first = world.claim("worker-1");
    let path = "/root/__ds/subscriptions/sub-1/claim";
    let second = world.post(path, ReqBody::Claim("worker-2".to_string()), None);
    assert!(matches!(
        second.reply,
        Reply::AlreadyClaimed { holder, generation }
            if holder == "worker-1" && generation == first.generation
    ));
    let stale = Claim {
        wake_id: first.wake_id.clone(),
        generation: first.generation,
        token: "1.1.00.00".to_string(),
        streams: Vec::new(),
    };
    assert_eq!(world.ack(&stale, &[], true).reply.status(), 401);
}

#[test]
fn restart_fences_a_replaced_stream_incarnation() {
    let mut world = World::new();
    world.create("/root/wake/pool");
    let current_id = world.create("/root/events/a");
    world.append("/root/events/a", 12);
    let mut sub = subscription(SubscriptionKind::PullWake, None, &["events/a"]);
    sub.streams.insert(
        "events/a".to_string(),
        StreamLink {
            explicit: true,
            glob: false,
            acked_offset: format_offset(u64::MAX),
            stream_id: Some(current_id.wrapping_add(1)),
        },
    );
    sub.generation = 7;
    sub.wake_id = some("old-wake");
    sub.wake_snapshot.insert("events/a".to_string(), format_offset(u64::MAX));
    sub.token = some("old-token");
    sub.holder = some("old-worker");
    sub.lease_nonce = 4;
    sub.lease_expires_at_ms = Some(NOW + 600_000);
    sub.wake_trigger = some("events/a");
    world.insert(sub);
    let table = world.table();
    let seeds = draw_seeds(1).unwrap();
    let secret = world.manager.token_secret.clone();
    world.manager.state.resume(&table, &secret, &seeds, NOW);
    let sub = world.sub_1();
    assert_eq!(sub.streams.get("events/a").unwrap().stream_id, Some(current_id));
    assert_eq!(sub.streams.get("events/a").unwrap().acked_offset, BEFORE_FIRST);
    assert_eq!(sub.generation, 8);
    assert_ne!(sub.wake_id.as_deref(), Some("old-wake"));
    assert!(sub.holder.is_none());
}

#[test]
fn explicit_link_fences_a_lazy_expiry_replacement_without_delete_notification() {
    let mut world = World::new();
    world.create("/root/wake/pool");
    let old_id = world.create("/root/events/a");
    let body = pull(None, &["events/a"], "wake/pool", None);
    assert_eq!(world.put("/root/__ds/subscriptions/sub-1", body).reply.status(), 201);
    world.append("/root/events/a", 12);
    let claim = world.claim("worker-1");
    let old_tail = claim.streams[0].tail_offset.clone();
    assert_eq!(world.ack(&claim, &[("events/a", &old_tail)], true).reply.status(), 200);
    world.drop_stream("/root/events/a");
    let new_id = world.create("/root/events/a");
    world.append("/root/events/a", 12);
    assert_ne!(new_id, old_id);
    let sub = world.sub_1();
    assert_eq!(sub.streams.get("events/a").unwrap().stream_id, Some(new_id));
    assert_eq!(sub.streams.get("events/a").unwrap().acked_offset, BEFORE_FIRST);
    assert!(sub.wake_id.is_some());
    assert!(sub.has_pending_work(&world.table()));
}

#[test]
fn subscriptions_leases_tokens_and_signing_keys_survive_restart() {
    let mut world = World::new();
    world.create("/root/wake/pool");
    world.create("/root/events/a");
    let body = pull(Some("events/*"), &[], "wake/pool", Some(600_000));
    assert_eq!(world.put("/root/__ds/subscriptions/sub-1", body).reply.status(), 201);
    world.append("/root/events/a", 12);
    let claim = world.claim("worker-a");
    let kids: Vec<String> = world.manager.signing_keys.keys.iter().map(|key| key.kid.clone()).collect();

    let kept = vec![world.sub_1().copy()];
    let persisted = world.manager.signing_keys.persisted(&world.manager.token_secret);
    let moment = durable_streams::clock::Moment { nanos: 0 };
    let (ring, secret) =
        durable_streams::subscriptions::secrets::load_secrets(&persisted, moment).ok().unwrap();
    let state = load_persisted_state(1, kept, true).ok().unwrap();
    world.manager =
        SubscriptionManager::new(state, ring, secret, 2_592_000_000, 300_000, None, true)
            .ok()
            .unwrap();
    let table = world.table();
    let seeds = draw_seeds(1).unwrap();
    let secret = world.manager.token_secret.clone();
    world.manager.state.resume(&table, &secret, &seeds, NOW);
    let after: Vec<String> = world.manager.signing_keys.keys.iter().map(|key| key.kid.clone()).collect();
    assert_eq!(after, kids, "signing key must be stable");
    let tail = tail_of(&claim, "events/a");
    assert_eq!(world.ack(&claim, &[("events/a", &tail)], true).reply.status(), 200);
    assert!(world.sub_1().wake_id.is_none());
    assert!(!world.sub_1().has_pending_work(&world.table()));
}

#[test]
fn requests_that_cannot_be_kept_change_nothing() {
    let mut world = World::new();
    world.create("/root/wake/pool");
    let open = WakeStreamLookup::Live { closed: false, is_json: true };
    let body = pull(Some("events/*"), &[], "wake/pool", None);
    let path = "/root/__ds/subscriptions/sub-1";
    let failed = world.request(Method::Put, path, body, None, open, false);
    assert_eq!(failed.reply.status(), 500);
    assert_eq!(world.manager.state.subscriptions.len(), 0);
    assert_eq!(world.manager.state.wake_streams.len(), 0);
    let body = pull(Some("events/*"), &[], "wake/pool", None);
    assert_eq!(world.put(path, body).reply.status(), 201);
    let body = pull(Some("events/*"), &[], "wake/pool", None);
    assert_eq!(world.put(path, body).reply.status(), 200);
    let body = pull(Some("other/*"), &[], "wake/pool", None);
    assert_eq!(world.put(path, body).reply.status(), 409);
    let deleted = world.request(Method::Delete, path, ReqBody::Unreadable, None, open, true);
    assert_eq!(deleted.reply.status(), 204);
    assert_eq!(world.manager.state.wake_streams.len(), 0);
    let described = world.request(Method::Get, path, ReqBody::Unreadable, None, open, true);
    assert_eq!(described.reply.status(), 404);
}

#[test]
fn descriptions_list_links_in_order() {
    let mut world = World::new();
    world.create("/root/wake/pool");
    world.create("/root/events/b");
    world.create("/root/events/a");
    let body = pull(Some("events/*"), &["manual/z"], "wake/pool", None);
    let created = world.put("/root/__ds/subscriptions/sub-1", body);
    match created.reply {
        Reply::Described { status, document } => {
            assert_eq!(status, 201);
            let paths: Vec<&str> = document.streams.iter().map(|info| info.path.as_str()).collect();
            assert_eq!(paths, vec!["events/a", "events/b", "manual/z"]);
            assert_eq!(document.streams[0].link_type, "glob");
            assert_eq!(document.streams[2].link_type, "explicit");
            assert_eq!(document.lease_ttl_ms, 30_000);
        }
        _ => panic!("expected a description"),
    }
    let keys = world.request(
        Method::Get,
        "/root/__ds/jwks.json",
        ReqBody::Unreadable,
        None,
        WakeStreamLookup::Missing,
        true,
    );
    assert_eq!(keys.reply.content_type(), Some("application/jwk-set+json"));
    assert_eq!(keys.reply.cache_control(), Some("public, max-age=300, must-revalidate"));
    match keys.reply {
        Reply::Keys { keys } => assert_eq!(keys.len(), 1),
        _ => panic!("expected keys"),
    }
}

#[test]
fn refused_claims_report_the_verifier() {
    let mut world = World::new();
    world.create("/root/wake/pool");
    let body = pull(Some("events/*"), &[], "wake/pool", None);
    world.put("/root/__ds/subscriptions/sub-1", body);
    for (error, status) in [
        (ServiceJwtError::Missing, 401),
        (ServiceJwtError::Invalid, 401),
        (ServiceJwtError::Forbidden, 403),
        (ServiceJwtError::Unavailable, 503),
    ] {
        let req = Req {
            method: Method::Post,
            path: "/root/__ds/subscriptions/sub-1/claim".to_string(),
            content_type: some("application/json; charset=utf-8"),
            authorization: None,
            body_len: 10,
            body: ReqBody::Claim("worker".to_string()),
        };
        let findings = Findings {
            found: WakeStreamLookup::Missing,
            auth: Err(error),
            keys_fresh: true,
            created_at: String::new(),
        };
        let table = world.table();
        let seed = WakeSeed::draw().unwrap();
        let prepared = world.manager.handle(req, findings, &table, &seed, NOW);
        assert_eq!(prepared.reply.status(), status);
    }
}

#[test]
fn tokens_belong_to_one_wake_and_expire() {
    let secret = vec![9u8; 32];
    let seed = WakeSeed::draw().unwrap();
    let token = generate_token(&secret, "key", 3, 1_000, &seed.token);
    assert!(validate_token(&secret, "key", &token, 1_000).is_ok());
    assert!(validate_token(&secret, "key", &token, 4_600).is_ok());
    assert!(validate_token(&secret, "key", &token, 4_601).is_err());
    assert!(validate_token(&secret, "other", &token, 1_000).is_err());
    assert!(validate_token(&vec![8u8; 32], "key", &token, 1_000).is_err());
    assert!(validate_token(&secret, "key", "nonsense", 1_000).is_err());
    assert!(token_matches(&secret, &Some(token.clone()), &token));
    assert!(!token_matches(&secret, &Some(token.clone()), "other"));
    assert!(!token_matches(&secret, &None, &token));
}

#[test]
fn an_older_background_snapshot_cannot_overwrite_a_newer_commit() {
    let mut order = SnapshotOrder::new();
    assert!(order.is_newer(2));
    assert!(order.settle(2, true));
    assert!(!order.is_newer(1));
    assert!(order.settle(1, false));
    assert_eq!(order.written, 2);
}

#[test]
fn persistence_drain_waits_for_a_held_snapshot_writer() {
    let mut writers = BackgroundWriters::new();
    assert!(writers.note_change());
    assert_eq!(writers.active, 1);
    assert!(!writers.note_change());
    assert!(writers.wrote(1));
    assert!(!writers.wrote(2));
    assert!(writers.ended());
    assert_eq!(writers.active, 0);
    assert_eq!(next_write_delay_ms(0), 100);
    assert_eq!(next_write_delay_ms(100), 200);
    assert_eq!(next_write_delay_ms(6_400), 10_000);
}

#[test]
fn append_waits_for_a_first_subscription_create_after_its_tail_sample() {
    let mut count = SubscriptionCount { count: 0 };
    assert!(count.idle());
    count.reserve();
    assert!(!count.idle());
    count.end_creation(true);
    assert!(!count.idle());
    count.removed();
    assert!(count.idle());

    let mut world = World::new();
    world.create("/root/wake/pool");
    let id = world.create("/root/events/a");
    let mut sub = subscription(SubscriptionKind::PullWake, None, &["events/a"]);
    sub.streams.insert(
        "events/a".to_string(),
        StreamLink {
            explicit: true,
            glob: false,
            acked_offset: ZERO.to_string(),
            stream_id: Some(id),
        },
    );
    let table = world.table();
    let _ = world.manager.state.register_wake_stream(&sub, &table);
    world.insert(sub);
    world.append("/root/events/a", 12);
    assert!(world.sub_1().wake_id.is_some());
    assert!(world.sub_1().has_pending_work(&world.table()));
}

#[test]
fn a_seed_takes_both_draws_in_their_order() {
    let seed = WakeSeed::from_draws(Some(vec![1; 12]), Some(vec![2; 12])).unwrap();
    assert_eq!(seed.wake, vec![1; 12]);
    assert_eq!(seed.token, vec![2; 12]);
    assert_eq!(seed.wake_id(), "w_010101010101010101010101");
    assert!(WakeSeed::from_draws(None, Some(vec![2; 12])).is_none());
    assert!(WakeSeed::from_draws(Some(vec![1; 12]), None).is_none());
}

#[test]
fn seeds_come_in_the_order_of_their_draws() {
    let first = WakeSeed::from_draws(Some(vec![1; 12]), Some(vec![2; 12]));
    let second = WakeSeed::from_draws(Some(vec![3; 12]), Some(vec![4; 12]));
    let seeds = with_draw(with_draw(Vec::new(), first).unwrap(), second).unwrap();
    assert_eq!(seeds.len(), 2);
    assert_eq!(seeds[0].wake, vec![1; 12]);
    assert_eq!(seeds[1].token, vec![4; 12]);
    assert!(with_draw(seeds, None).is_none());
    assert!(draw_seeds(0).unwrap().is_empty());
    assert_eq!(draw_seeds(3).unwrap().len(), 3);
}

#[test]
fn jitter_is_read_from_the_more_significant_byte_on() {
    assert_eq!(jitter_from(Some(vec![0x12, 0x34])), Some(0x1234));
    assert_eq!(jitter_from(Some(vec![0xff, 0xff])), Some(u16::MAX));
    assert_eq!(jitter_from(None), None);
    assert!(draw_jitter().is_some());
}

#[test]
fn only_sound_pull_wake_requests_have_their_wake_stream_looked_up() {
    let raw = |body: ReqBody| match body {
        ReqBody::Create(raw) => raw,
        _ => panic!("a creation"),
    };
    let sound = raw(pull(Some("events/*"), &[], "/wake/", None));
    assert_eq!(
        wanted_wake_stream("/root", sound.clone()),
        Some("/root/wake".to_string())
    );
    let unsound = RawCreateRequest { lease_ttl_ms: Some(1), ..sound.clone() };
    assert_eq!(wanted_wake_stream("/root", unsound), None);
    let webhook = RawCreateRequest {
        kind: "webhook".to_string(),
        webhook_url: some("https://example.com/hook"),
        wake_stream: None,
        ..sound
    };
    assert_eq!(wanted_wake_stream("/root", webhook), None);
}

#[test]
fn a_given_up_wake_channel_leaves_no_count() {
    let mut world = World::new();
    world.create("/root/wake");
    world.put("/root/__ds/subscriptions/sub-1", pull(Some("events/*"), &[], "wake", None));
    assert_eq!(world.manager.state.wake_streams.get("/root/wake"), Some(&1));
    let sub = world.sub_1().copy();
    let table = world.table();
    let _ = world.manager.state.register_wake_stream(&sub, &table);
    assert_eq!(world.manager.state.wake_streams.get("/root/wake"), Some(&2));
    world.manager.state.unregister_wake_stream(&sub);
    assert_eq!(world.manager.state.wake_streams.get("/root/wake"), Some(&1));
    world.manager.state.unregister_wake_stream(&sub);
    assert!(world.manager.state.wake_streams.get("/root/wake").is_none());
}

#[test]
fn wake_channels_stay_apart_through_retirements_leases_and_restarts() {
    let mut world = World::new();
    world.create("/root/wake");
    world.create("/root/a");
    world.put("/root/__ds/subscriptions/sub-1", pull(Some("**"), &[], "wake", None));
    world.append("/root/wake", 4);
    world.append("/root/a", 4);
    assert!(world.sub_1().streams.get("wake").is_none());
    world.delete("/root/a");
    assert!(world.sub_1().streams.get("wake").is_none());
    world.create("/root/b");
    let table = world.table();
    let seeds = draw_seeds(1).unwrap();
    let secret = world.manager.token_secret.clone();
    world.manager.state.resume(&table, &secret, &seeds, NOW + 1);
    assert!(world.sub_1().streams.get("wake").is_none());
    assert!(world.sub_1().streams.get("b").is_some());
    assert_eq!(world.sub_1().id, "sub-1");
}
