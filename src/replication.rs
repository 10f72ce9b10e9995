//! Laws of command execution: expiry, replication offsets, replica silence
//! and the order in which writes reach replicas.
use vstd::prelude::*;
use crate::resp::{Resp, encode};
use crate::store::{Slot, deadline_of, live};
use crate::command::{Cmd, word_getack, command_of};
use crate::parser::{Batch, batch_of};
use crate::dispatch::{ConnKind, RunState, RunResult, Setting, run, step, get_reply, ack_reply};
use crate::laws::{lemma_batch_prefix, lemma_parse_take, lemma_incremental};
use crate::decode::{Parse, parse_frame};

verus! {

/// Expiry: a value set at `t0` to live `d` milliseconds reads back `t`
/// milliseconds later when `t < d`, and reads as the null bulk string when
/// `t >= d`.
pub proof fn lemma_expiry(db: Map<Seq<u8>, Slot>, k: Seq<u8>, v: Resp, d: nat, t0: nat, t: nat)
    requires
        t0 + d <= u64::MAX,
    ensures
        get_reply(db.insert(k, (v, deadline_of(t0, Some(d)))), k, t0 + t) == if t < d {
            encode(v)
        } else {
            encode(Resp::NullBulk)
        },
{
}

/// Total length of the commands' raw bytes.
pub open spec fn raw_total(cmds: Seq<(Cmd, Seq<u8>)>) -> nat
    decreases cmds.len(),
{
    if cmds.len() == 0 {
        0
    } else {
        raw_total(cmds.drop_last()) + cmds.last().1.len()
    }
}

/// `REPLCONF GETACK ...`
pub open spec fn is_getack(c: Cmd) -> bool {
    c is ReplConf && c->ReplConf_0.len() > 0 && c->ReplConf_0[0] == word_getack()
}

/// Replication byte accounting: on a connection from the master that starts
/// at offset 0, the reply to each `REPLCONF GETACK` is the ACK of the total
/// bytes of the commands before it.
pub proof fn lemma_ack_offsets(st: RunState, set: Setting, cmds: Seq<(Cmd, Seq<u8>)>)
    requires
        set.kind == ConnKind::FromMaster,
        st.offset == 0,
        !st.subscribed,
        raw_total(cmds) <= usize::MAX,
    ensures
        run(st, set, cmds).state.offset == raw_total(cmds),
        !run(st, set, cmds).state.subscribed,
        run(st, set, cmds).replies.len() == cmds.len(),
        forall|j: int|
            0 <= j < cmds.len() && is_getack((#[trigger] cmds[j]).0) ==> run(st, set, cmds).replies[j]
                == ack_reply(raw_total(cmds.take(j))),
    decreases cmds.len(),
{
    if cmds.len() > 0 {
        let prev = cmds.drop_last();
        lemma_ack_offsets(st, set, prev);
        assert forall|j: int|
            0 <= j < cmds.len() && is_getack((#[trigger] cmds[j]).0) implies run(st, set, cmds).replies[j]
                == ack_reply(raw_total(cmds.take(j))) by {
            if j < cmds.len() - 1 {
                assert(prev[j] == cmds[j]);
                assert(prev.take(j) =~= cmds.take(j));
            } else {
                assert(cmds.take(j) =~= prev);
            }
        }
    }
}

/// What may answer the master on its connection: GETACK, and the reads
/// ECHO, GET and INFO.
pub open spec fn answers_master(c: Cmd) -> bool {
    is_getack(c) || c is Echo || c is Get || c is Info
}

/// Replica silence: on a connection from the master, every command other
/// than GETACK, ECHO, GET and INFO has an empty reply.
pub proof fn lemma_replica_silence(st: RunState, set: Setting, cmds: Seq<(Cmd, Seq<u8>)>)
    requires
        set.kind == ConnKind::FromMaster,
    ensures
        run(st, set, cmds).replies.len() == cmds.len(),
        run(st, set, cmds).published.len() == 0,
        forall|j: int|
            0 <= j < cmds.len() && !answers_master((#[trigger] cmds[j]).0) ==> run(st, set, cmds).replies[j]
                == Seq::<u8>::empty(),
    decreases cmds.len(),
{
    if cmds.len() > 0 {
        let prev = cmds.drop_last();
        lemma_replica_silence(st, set, prev);
        assert forall|j: int|
            0 <= j < cmds.len() && !answers_master((#[trigger] cmds[j]).0) implies run(st, set, cmds).replies[j]
                == Seq::<u8>::empty() by {
            if j < cmds.len() - 1 {
                assert(prev[j] == cmds[j]);
            }
        }
    }
}

/// The SET commands among `cmds`, with their raw bytes, in order.
pub open spec fn set_cmds(cmds: Seq<(Cmd, Seq<u8>)>) -> Seq<(Cmd, Seq<u8>)>
    decreases cmds.len(),
{
    if cmds.len() == 0 {
        Seq::empty()
    } else if cmds.last().0 is SetKey {
        set_cmds(cmds.drop_last()).push(cmds.last())
    } else {
        set_cmds(cmds.drop_last())
    }
}

/// The raw bytes of each command.
pub open spec fn raws_of(cmds: Seq<(Cmd, Seq<u8>)>) -> Seq<Seq<u8>> {
    cmds.map_values(|f: (Cmd, Seq<u8>)| f.1)
}

/// Every SET picked out is one of the commands.
proof fn lemma_set_cmds_from(cmds: Seq<(Cmd, Seq<u8>)>)
    ensures
        forall|j: int| 0 <= j < set_cmds(cmds).len() ==> exists|i: int| 0 <= i < cmds.len() && cmds[i] == #[trigger] set_cmds(cmds)[j],
    decreases cmds.len(),
{
    if cmds.len() > 0 {
        let prev = cmds.drop_last();
        lemma_set_cmds_from(prev);
        assert forall|j: int| 0 <= j < set_cmds(cmds).len() implies exists|i: int| 0 <= i < cmds.len() && cmds[i] == #[trigger] set_cmds(cmds)[j] by {
            if j < set_cmds(prev).len() {
                let i = choose|i: int| 0 <= i < prev.len() && prev[i] == set_cmds(prev)[j];
                assert(cmds[i] == prev[i]);
            } else {
                assert(cmds[cmds.len() - 1] == set_cmds(cmds)[j]);
            }
        }
    }
}

/// Propagation order on the master: a client connection publishes the
/// exact bytes of each SET it runs, in the order it runs them.
pub proof fn lemma_publish_order(st: RunState, set: Setting, cmds: Seq<(Cmd, Seq<u8>)>)
    requires
        set.kind == ConnKind::Client,
        !set.replica,
        !st.subscribed,
        forall|j: int| 0 <= j < cmds.len() ==> !((#[trigger] cmds[j]).0 is Psync),
    ensures
        run(st, set, cmds).published == raws_of(set_cmds(cmds)),
        !run(st, set, cmds).state.subscribed,
    decreases cmds.len(),
{
    if cmds.len() > 0 {
        let prev = cmds.drop_last();
        assert forall|j: int| 0 <= j < prev.len() implies !((#[trigger] prev[j]).0 is Psync) by {
            assert(prev[j] == cmds[j]);
        }
        lemma_publish_order(st, set, prev);
        assert(!(cmds[cmds.len() - 1].0 is Psync));
        if cmds.last().0 is SetKey {
            assert(raws_of(set_cmds(cmds)) =~= raws_of(set_cmds(prev)).push(cmds.last().1));
        }
    }
}

/// Each command of a batch, with its raw bytes, decodes alone to itself.
pub proof fn lemma_batch_entries_alone(s: Seq<u8>)
    ensures
        forall|j: int| 0 <= j < batch_of(s).cmds.len() ==> batch_of((#[trigger] batch_of(s).cmds[j]).1) == (Batch {
            cmds: seq![batch_of(s).cmds[j]],
            consumed: batch_of(s).cmds[j].1.len(),
            malformed: false,
        }),
    decreases s.len(),
{
    if s.len() > 0 {
        match parse_frame(s) {
            Parse::Done(v, n) => {
                if 0 < n <= s.len() {
                    lemma_batch_entries_alone(s.skip(n as int));
                    if v is Array {
                        let raw = s.take(n as int);
                        lemma_parse_take(s, n as int);
                        assert(raw.skip(n as int) =~= Seq::<u8>::empty());
                        assert(raw.take(n as int) =~= raw);
                        let rest = batch_of(s.skip(n as int)).cmds;
                        assert forall|j: int| 0 <= j < batch_of(s).cmds.len() implies batch_of((#[trigger] batch_of(s).cmds[j]).1) == (Batch {
                            cmds: seq![batch_of(s).cmds[j]],
                            consumed: batch_of(s).cmds[j].1.len(),
                            malformed: false,
                        }) by {
                            if j > 0 {
                                assert(batch_of(s).cmds[j] == rest[j - 1]);
                            } else {
                                let e = batch_of(Seq::<u8>::empty());
                                assert(e.cmds.len() == 0 && e.consumed == 0 && !e.malformed);
                                let c = (command_of(v), raw);
                                assert(batch_of(s).cmds[0] == c);
                                assert(batch_of(raw).cmds =~= seq![c] + e.cmds);
                                assert(seq![c] + e.cmds =~= seq![c]);
                            }
                        }
                    }
                }
            },
            _ => {},
        }
    }
}

/// The byte strings one after another.
pub open spec fn flatten(raws: Seq<Seq<u8>>) -> Seq<u8>
    decreases raws.len(),
{
    if raws.len() == 0 {
        Seq::empty()
    } else {
        raws[0] + flatten(raws.skip(1))
    }
}

/// Propagation order on the replica: when each published byte string
/// decodes alone to its one command, the stream made of all of them in
/// order decodes to those commands in that order.
pub proof fn lemma_stream_order(frames: Seq<(Cmd, Seq<u8>)>)
    requires
        forall|j: int| 0 <= j < frames.len() ==> batch_of((#[trigger] frames[j]).1) == (Batch {
            cmds: seq![frames[j]],
            consumed: frames[j].1.len(),
            malformed: false,
        }),
    ensures
        batch_of(flatten(frames.map_values(|f: (Cmd, Seq<u8>)| f.1))).cmds == frames,
        !batch_of(flatten(frames.map_values(|f: (Cmd, Seq<u8>)| f.1))).malformed,
    decreases frames.len(),
{
    let raws = frames.map_values(|f: (Cmd, Seq<u8>)| f.1);
    let s = flatten(raws);
    if frames.len() == 0 {
        assert(batch_of(s).cmds =~= frames);
    } else {
        let rest = frames.skip(1);
        assert forall|j: int| 0 <= j < rest.len() implies batch_of((#[trigger] rest[j]).1) == (Batch {
            cmds: seq![rest[j]],
            consumed: rest[j].1.len(),
            malformed: false,
        }) by {
            assert(rest[j] == frames[j + 1]);
        }
        lemma_stream_order(rest);
        assert(raws.skip(1) =~= rest.map_values(|f: (Cmd, Seq<u8>)| f.1));
        let r0 = frames[0].1;
        assert(s == r0 + flatten(raws.skip(1)));
        assert(s.take(r0.len() as int) =~= r0);
        assert(s.skip(r0.len() as int) =~= flatten(raws.skip(1)));
        lemma_batch_prefix(s, r0.len() as int);
        assert(seq![frames[0]] + rest =~= frames);
    }
}

} // verus!

verus! {

/// Ordered propagation: when a master runs the commands of a batch on a
/// client connection, it publishes the bytes of its SET commands in order,
/// and a replica reading all of them as one stream decodes exactly those SET
/// commands in that order.
pub proof fn lemma_propagation(data: Seq<u8>, st: RunState, set: Setting)
    requires
        set.kind == ConnKind::Client,
        !set.replica,
        !st.subscribed,
        forall|j: int| 0 <= j < batch_of(data).cmds.len() ==> !((#[trigger] batch_of(data).cmds[j]).0 is Psync),
    ensures
        run(st, set, batch_of(data).cmds).published == raws_of(set_cmds(batch_of(data).cmds)),
        batch_of(flatten(run(st, set, batch_of(data).cmds).published)).cmds == set_cmds(batch_of(data).cmds),
        !batch_of(flatten(run(st, set, batch_of(data).cmds).published)).malformed,
{
    let cmds = batch_of(data).cmds;
    lemma_publish_order(st, set, cmds);
    lemma_set_cmds_from(cmds);
    lemma_batch_entries_alone(data);
    let sc = set_cmds(cmds);
    assert forall|j: int| 0 <= j < sc.len() implies batch_of((#[trigger] sc[j]).1) == (Batch {
        cmds: seq![sc[j]],
        consumed: sc[j].1.len(),
        malformed: false,
    }) by {
        let i = choose|i: int| 0 <= i < cmds.len() && cmds[i] == sc[j];
    }
    lemma_stream_order(sc);
}

} // verus!

verus! {

/// Running two lists of commands one after the other is running them joined.
pub proof fn lemma_run_append(st: RunState, set: Setting, c1: Seq<(Cmd, Seq<u8>)>, c2: Seq<(Cmd, Seq<u8>)>)
    ensures
        run(st, set, c1 + c2) == (RunResult {
            state: run(run(st, set, c1).state, set, c2).state,
            replies: run(st, set, c1).replies + run(run(st, set, c1).state, set, c2).replies,
            published: run(st, set, c1).published + run(run(st, set, c1).state, set, c2).published,
        }),
    decreases c2.len(),
{
    let r1 = run(st, set, c1);
    if c2.len() == 0 {
        assert(c1 + c2 =~= c1);
        assert(r1.replies + Seq::<Seq<u8>>::empty() =~= r1.replies);
        assert(r1.published + Seq::<Seq<u8>>::empty() =~= r1.published);
    } else {
        let p2 = c2.drop_last();
        lemma_run_append(st, set, c1, p2);
        assert((c1 + c2).drop_last() =~= c1 + p2);
        assert((c1 + c2).last() == c2.last());
        let a = run(r1.state, set, p2);
        assert(r1.replies + a.replies.push(Seq::<u8>::empty()) =~= (r1.replies + a.replies).push(Seq::<u8>::empty()));
        let s = step(a.state, set, c2.last().0, c2.last().1);
        assert(r1.replies + a.replies.push(s.reply) =~= (r1.replies + a.replies).push(s.reply));
        match s.publish {
            Some(p) => {
                assert(r1.published + a.published.push(p) =~= (r1.published + a.published).push(p));
            },
            None => {},
        }
    }
}

/// Incremental execution: for bytes that decode to commands entirely,
/// handing a connection the first `i` bytes and then the rest leads to the
/// same state, replies and published bytes as handing it all at once.
pub proof fn lemma_split_feed(st: RunState, set: Setting, b: Seq<u8>, i: int)
    requires
        0 <= i <= b.len(),
        !batch_of(b).malformed,
        batch_of(b).consumed == b.len(),
    ensures
        ({
            let first = batch_of(b.take(i));
            let second = batch_of(b.take(i).skip(first.consumed as int) + b.skip(i));
            let r1 = run(st, set, first.cmds);
            let r2 = run(r1.state, set, second.cmds);
            let whole = run(st, set, batch_of(b).cmds);
            &&& r2.state == whole.state
            &&& r1.replies + r2.replies == whole.replies
            &&& r1.published + r2.published == whole.published
        }),
{
    lemma_incremental(b, i);
    let first = batch_of(b.take(i));
    let second = batch_of(b.take(i).skip(first.consumed as int) + b.skip(i));
    lemma_run_append(st, set, first.cmds, second.cmds);
}

} // verus!
