//! The mind map's state: connection settings, output directory, the topic
//! store and the throttle. Each message updates the store and says whether a
//! drawing is due; a drawing is planned from a snapshot of the store.
use vstd::prelude::*;
use vstd::utf8::{valid_utf8, decode_utf8};
use crate::color::Rgb;
use crate::render::{RenderPlan, Stamp, render_plan, dot_spec, artifact_path, latest_path};
use crate::store::{TopicEntry, TopicStore};
use crate::throttle::{Throttle, render_due};
use crate::tree::{MindGraph, build_tree, topic_weight};

verus! {

/// The text that lossy UTF-8 decoding makes of `b`.
pub uninterp spec fn lossy_text(b: Seq<u8>) -> Seq<char>;

/// Relies on `String::from_utf8_lossy`: the text of `b`, with each invalid
/// sequence replaced; valid UTF-8 is decoded as it is.
#[verifier::external_body]
fn decode_lossy(b: &[u8]) -> (r: String)
    ensures
        r@ == lossy_text(b@),
        valid_utf8(b@) ==> r@ == decode_utf8(b@),
{
    String::from_utf8_lossy(b).into_owned()
}

/// The largest total topic size a drawing can take: the graph's indices are
/// 32-bit.
pub const MAX_TOPIC_WEIGHT: u64 = 4294967294;

/// Computes `topic_weight(s)`, or says that it reaches `MAX_TOPIC_WEIGHT`.
pub fn bounded_weight(s: &Vec<TopicEntry>) -> (r: Option<u64>)
    ensures
        r matches Some(w) ==> w == topic_weight(s@) && w < MAX_TOPIC_WEIGHT,
        r is None ==> topic_weight(s@) >= MAX_TOPIC_WEIGHT,
{
    let mut total: u64 = 0;
    let mut i: usize = 0;
    proof {
        assert(s@.subrange(0, 0) =~= Seq::<TopicEntry>::empty());
    }
    while i < s.len()
        invariant
            i <= s@.len(),
            total == topic_weight(s@.subrange(0, i as int)),
            total < MAX_TOPIC_WEIGHT,
        decreases s@.len() - i,
    {
        let n = s[i].topic.as_str().unicode_len() as u64;
        proof {
            assert(s@.subrange(0, i as int + 1).drop_last() =~= s@.subrange(0, i as int));
        }
        if n >= MAX_TOPIC_WEIGHT - 1 - total {
            proof {
                lemma_weight_grows(s@, i as int + 1);
            }
            return None;
        }
        total = total + n + 1;
        i = i + 1;
    }
    proof {
        assert(s@.subrange(0, i as int) =~= s@);
    }
    Some(total)
}

proof fn lemma_weight_grows(s: Seq<TopicEntry>, k: int)
    requires
        0 <= k <= s.len(),
    ensures
        topic_weight(s.subrange(0, k)) <= topic_weight(s),
    decreases s.len() - k,
{
    if k < s.len() {
        assert(s.subrange(0, k + 1).drop_last() =~= s.subrange(0, k));
        lemma_weight_grows(s, k + 1);
    } else {
        assert(s.subrange(0, k) =~= s);
    }
}

/// Settings and live state of one mind map.
pub struct MQTTMindMap {
    pub host: String,
    pub port: u16,
    /// Milliseconds between drawings.
    pub update_interval: u64,
    pub output_dir: String,
    pub topic_values: TopicStore,
    pub throttle: Throttle,
}

impl MQTTMindMap {
    pub open spec fn wf(&self) -> bool {
        &&& self.topic_values.wf()
        &&& self.throttle.interval == self.update_interval
    }

    /// A mind map with an empty store whose first interval starts at `now`
    /// (milliseconds).
    pub fn new(host: String, port: u16, update_interval: u64, output_dir: String, now: u64) -> (r: MQTTMindMap)
        ensures
            r.wf(),
            r.host == host,
            r.port == port,
            r.update_interval == update_interval,
            r.output_dir == output_dir,
            r.topic_values.values() == Map::<Seq<char>, Seq<char>>::empty(),
            r.throttle.last_render == now,
    {
        MQTTMindMap {
            host,
            port,
            update_interval,
            output_dir,
            topic_values: TopicStore::new(),
            throttle: Throttle::new(update_interval, now),
        }
    }

    /// Takes in a message published on `topic` at `now`: its payload, decoded
    /// lossily, becomes the topic's latest value. Returns whether a drawing is
    /// due now.
    pub fn on_message(&mut self, topic: String, payload: &[u8], now: u64) -> (due: bool)
        requires
            old(self).wf(),
        ensures
            final(self).wf(),
            final(self).host == old(self).host,
            final(self).port == old(self).port,
            final(self).update_interval == old(self).update_interval,
            final(self).output_dir == old(self).output_dir,
            final(self).topic_values.values() == old(self).topic_values.values().insert(topic@, lossy_text(payload@)),
            final(self).topic_values.stamps() == old(self).topic_values.stamps().insert(topic@, now),
            due == render_due(old(self).throttle.last_render, now, old(self).update_interval),
            final(self).throttle.last_render == if due { now } else { old(self).throttle.last_render },
    {
        let value = decode_lossy(payload);
        self.topic_values.upsert(topic, value, now);
        self.throttle.check(now)
    }

    /// The graph of the current snapshot, or `None` when the topics are too
    /// large in total to index.
    pub fn graph(&self) -> (r: Option<MindGraph>)
        requires
            self.wf(),
        ensures
            r matches Some(g) ==> g.built_from(&self.topic_values),
            r is None <==> topic_weight(self.topic_values.entries@) >= MAX_TOPIC_WEIGHT,
    {
        match bounded_weight(&self.topic_values.entries) {
            Some(_) => Some(build_tree(&self.topic_values)),
            None => None,
        }
    }

    /// Plans the drawing of the current snapshot at `stamp`, colored with
    /// `palette`; `None` as for `graph`.
    pub fn plan_render(&self, palette: &Vec<Rgb>, stamp: &Stamp) -> (r: Option<(MindGraph, RenderPlan)>)
        requires
            self.wf(),
            palette@.len() >= 1,
        ensures
            r matches Some((g, p)) ==> {
                &&& g.built_from(&self.topic_values)
                &&& p.dot_content@ == dot_spec(g, palette@)
                &&& p.dot_path@ == artifact_path(self.output_dir@, *stamp, "dot"@)
                &&& p.svg_path@ == artifact_path(self.output_dir@, *stamp, "svg"@)
                &&& p.png_path@ == artifact_path(self.output_dir@, *stamp, "png"@)
                &&& p.latest_svg@ == latest_path(self.output_dir@, "svg"@)
                &&& p.latest_png@ == latest_path(self.output_dir@, "png"@)
            },
            r is None <==> topic_weight(self.topic_values.entries@) >= MAX_TOPIC_WEIGHT,
    {
        match self.graph() {
            Some(g) => {
                let p = render_plan(&g, palette, &self.output_dir, stamp);
                Some((g, p))
            },
            None => None,
        }
    }
}

} // verus!
