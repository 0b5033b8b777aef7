//! The lifecycle of sessions and their files as a whole: the registry's
//! state together with the contents of the output files, and the laws that
//! hold of every sequence of lifecycle calls.
//!
//! The registry decides; the host performs the file work for each decision:
//! on Init it deletes whatever file is at the returned path, on a successful
//! Append it writes the chunk at the end of the file at the returned path
//! (creating it if needed), and on Read-back it reads that file.
use crate::naming::output_path_spec;
use crate::registry::Sessions;
use vstd::prelude::*;

verus! {

/// One lifecycle call.
pub enum Op {
    Init {
        dir: Seq<char>,
        mime: Option<Seq<char>>,
        key: Option<Seq<char>>,
        suffix: Option<Seq<char>>,
    },
    Append { key: Option<Seq<char>>, data: Seq<u8> },
    Finalize { key: Option<Seq<char>> },
}

/// The registry together with the files on disk, by path.
pub struct World {
    pub sessions: Sessions,
    pub disk: Map<Seq<char>, Seq<u8>>,
}

/// The bytes of the file at `path`; a missing file reads as empty when
/// appended to.
pub open spec fn contents(disk: Map<Seq<char>, Seq<u8>>, path: Seq<char>) -> Seq<u8> {
    if disk.contains_key(path) {
        disk[path]
    } else {
        Seq::empty()
    }
}

/// The effect of one call, as `Registry` decides it and the host carries
/// it out. A failed Append or Finalize changes nothing.
pub open spec fn step(w: World, op: Op) -> World {
    match op {
        Op::Init { dir, mime, key, suffix } => {
            let p = output_path_spec(dir, mime, key, suffix);
            World { sessions: w.sessions.init(key, p), disk: w.disk.remove(p) }
        },
        Op::Append { key, data } => {
            if w.sessions.active.contains(key) {
                let p = w.sessions.paths[key];
                World { sessions: w.sessions, disk: w.disk.insert(p, contents(w.disk, p) + data) }
            } else {
                w
            }
        },
        Op::Finalize { key } => {
            if w.sessions.active.contains(key) {
                World { sessions: w.sessions.finalize(key), disk: w.disk }
            } else {
                w
            }
        },
    }
}

/// The effect of a sequence of calls, in order.
pub open spec fn run(w: World, ops: Seq<Op>) -> World
    decreases ops.len(),
{
    if ops.len() == 0 {
        w
    } else {
        run(step(w, ops[0]), ops.drop_first())
    }
}

/// One Append call for each chunk, in order.
pub open spec fn appends(key: Option<Seq<char>>, chunks: Seq<Seq<u8>>) -> Seq<Op> {
    chunks.map_values(|c: Seq<u8>| Op::Append { key, data: c })
}

/// Whether `op` is an Init of `key`.
pub open spec fn is_init_of(op: Op, key: Option<Seq<char>>) -> bool {
    match op {
        Op::Init { key: k, .. } => k == key,
        _ => false,
    }
}

/// The key that a call is about.
pub open spec fn op_key(op: Op) -> Option<Seq<char>> {
    match op {
        Op::Init { key, .. } => key,
        Op::Append { key, .. } => key,
        Op::Finalize { key } => key,
    }
}

/// The file that a call may delete or extend.
pub open spec fn op_file(w: World, op: Op) -> Seq<char> {
    match op {
        Op::Init { dir, mime, key, suffix } => output_path_spec(dir, mime, key, suffix),
        Op::Append { key, .. } => w.sessions.paths[key],
        Op::Finalize { key } => w.sessions.paths[key],
    }
}

/// What Read-back yields for `key`: the file at the path last assigned to
/// the key, if there is such a path and a file there.
pub open spec fn read_back(w: World, key: Option<Seq<char>>) -> Option<Seq<u8>> {
    if w.sessions.paths.contains_key(key) && w.disk.contains_key(w.sessions.paths[key]) {
        Some(w.disk[w.sessions.paths[key]])
    } else {
        None
    }
}

/// Appending before any Init of the key fails: starting from an empty
/// registry, after any calls none of which is an Init of `key`, the key has
/// no open session (so `Registry::append_target` returns `NotInitialized`),
/// and an Append for it changes nothing.
pub proof fn law_append_before_init(
    disk: Map<Seq<char>, Seq<u8>>,
    ops: Seq<Op>,
    key: Option<Seq<char>>,
    data: Seq<u8>,
)
    requires
        forall|i: int| 0 <= i < ops.len() ==> !is_init_of(#[trigger] ops[i], key),
    ensures
        !run(World { sessions: Sessions::empty(), disk }, ops).sessions.active.contains(key),
        step(run(World { sessions: Sessions::empty(), disk }, ops), Op::Append { key, data })
            == run(World { sessions: Sessions::empty(), disk }, ops),
{
    lemma_stays_closed(World { sessions: Sessions::empty(), disk }, ops, key);
}

proof fn lemma_stays_closed(w: World, ops: Seq<Op>, key: Option<Seq<char>>)
    requires
        !w.sessions.active.contains(key),
        forall|i: int| 0 <= i < ops.len() ==> !is_init_of(#[trigger] ops[i], key),
    ensures
        !run(w, ops).sessions.active.contains(key),
    decreases ops.len(),
{
    if ops.len() > 0 {
        assert(!is_init_of(ops[0], key));
        let rest = ops.drop_first();
        assert forall|i: int| 0 <= i < rest.len() implies !is_init_of(#[trigger] rest[i], key) by {
            assert(rest[i] == ops[i + 1]);
        }
        lemma_stays_closed(step(w, ops[0]), rest, key);
    }
}

/// Running `a` and then `b` is running `a + b`.
proof fn lemma_run_concat(w: World, a: Seq<Op>, b: Seq<Op>)
    ensures
        run(w, a + b) == run(run(w, a), b),
    decreases a.len(),
{
    if a.len() > 0 {
        assert((a + b).drop_first() =~= a.drop_first() + b);
        lemma_run_concat(step(w, a[0]), a.drop_first(), b);
    }
}

/// Appends to an open session extend its file by the chunks in order and
/// leave the registry as it is.
proof fn lemma_appends_extend(w: World, key: Option<Seq<char>>, chunks: Seq<Seq<u8>>)
    requires
        w.sessions.active.contains(key),
    ensures
        run(w, appends(key, chunks)).sessions == w.sessions,
        contents(run(w, appends(key, chunks)).disk, w.sessions.paths[key]) == contents(
            w.disk,
            w.sessions.paths[key],
        ) + chunks.flatten(),
    decreases chunks.len(),
{
    let p = w.sessions.paths[key];
    if chunks.len() == 0 {
        assert(contents(w.disk, p) + chunks.flatten() =~= contents(w.disk, p));
    } else {
        let ops = appends(key, chunks);
        let rest = chunks.drop_first();
        assert(ops.drop_first() =~= appends(key, rest));
        let w1 = step(w, ops[0]);
        assert(contents(w1.disk, p) == contents(w.disk, p) + chunks[0]);
        lemma_appends_extend(w1, key, rest);
        assert(contents(w.disk, p) + chunks[0] + rest.flatten() =~= contents(w.disk, p) + (
        chunks[0] + rest.flatten()));
    }
}

/// After Init of a key and any number of Appends to it, the session's file
/// holds exactly the chunks concatenated in call order.
pub proof fn law_appends_concatenate(
    w: World,
    dir: Seq<char>,
    mime: Option<Seq<char>>,
    key: Option<Seq<char>>,
    suffix: Option<Seq<char>>,
    chunks: Seq<Seq<u8>>,
)
    ensures
        ({
            let p = output_path_spec(dir, mime, key, suffix);
            let w2 = run(
                w,
                seq![Op::Init { dir, mime, key, suffix }] + appends(key, chunks),
            );
            &&& w2.sessions.active.contains(key)
            &&& w2.sessions.paths[key] == p
            &&& w2.disk.contains_key(p) <==> chunks.len() > 0
            &&& contents(w2.disk, p) == chunks.flatten()
        }),
{
    let p = output_path_spec(dir, mime, key, suffix);
    let init = Op::Init { dir, mime, key, suffix };
    lemma_run_concat(w, seq![init], appends(key, chunks));
    let w1 = step(w, init);
    assert(run(w, seq![init]) == run(w1, seq![init].drop_first()));
    assert(seq![init].drop_first() =~= Seq::<Op>::empty());
    assert(w1.sessions.paths[key] == p);
    lemma_appends_extend(w1, key, chunks);
    assert(contents(w1.disk, p) + chunks.flatten() =~= chunks.flatten());
    lemma_appends_keep_file(w1, key, chunks);
}

/// Appends to an open session leave its file present exactly when it was
/// present before or some chunk was appended.
proof fn lemma_appends_keep_file(w: World, key: Option<Seq<char>>, chunks: Seq<Seq<u8>>)
    requires
        w.sessions.active.contains(key),
    ensures
        run(w, appends(key, chunks)).disk.contains_key(w.sessions.paths[key]) <==> (
        w.disk.contains_key(w.sessions.paths[key]) || chunks.len() > 0),
    decreases chunks.len(),
{
    if chunks.len() > 0 {
        let ops = appends(key, chunks);
        let rest = chunks.drop_first();
        assert(ops.drop_first() =~= appends(key, rest));
        lemma_appends_keep_file(step(w, ops[0]), key, rest);
    }
}

/// Init always starts the file afresh: Init, Append `a`, Finalize, Init,
/// Append `b`, Finalize on one key leaves exactly `b` in its file.
pub proof fn law_init_truncates(
    w: World,
    dir: Seq<char>,
    mime: Option<Seq<char>>,
    key: Option<Seq<char>>,
    suffix: Option<Seq<char>>,
    a: Seq<u8>,
    b: Seq<u8>,
)
    ensures
        ({
            let init = Op::Init { dir, mime, key, suffix };
            let ops = seq![
                init,
                Op::Append { key, data: a },
                Op::Finalize { key },
                init,
                Op::Append { key, data: b },
                Op::Finalize { key },
            ];
            let w2 = run(w, ops);
            &&& !w2.sessions.active.contains(key)
            &&& w2.disk[output_path_spec(dir, mime, key, suffix)] == b
        }),
{
    let p = output_path_spec(dir, mime, key, suffix);
    let init = Op::Init { dir, mime, key, suffix };
    let ops = seq![
        init,
        Op::Append { key, data: a },
        Op::Finalize { key },
        init,
        Op::Append { key, data: b },
        Op::Finalize { key },
    ];
    let w1 = step(w, init);
    let w2 = step(w1, Op::Append { key, data: a });
    let w3 = step(w2, Op::Finalize { key });
    let w4 = step(w3, init);
    let w5 = step(w4, Op::Append { key, data: b });
    let w6 = step(w5, Op::Finalize { key });
    assert(ops.drop_first().drop_first().drop_first().drop_first().drop_first().drop_first()
        =~= Seq::<Op>::empty());
    assert(run(w, ops) == w6) by {
        reveal_with_fuel(run, 7);
    }
    assert(contents(w4.disk, p) == Seq::<u8>::empty());
    assert(Seq::<u8>::empty() + b =~= b);
}

/// Finalize is not idempotent: after a successful Finalize of a key, a
/// second one finds no open session (so `Registry::finalize_recording`
/// returns `NoActiveSession`) and changes nothing.
pub proof fn law_finalize_twice(w: World, key: Option<Seq<char>>)
    requires
        w.sessions.active.contains(key),
    ensures
        !step(w, Op::Finalize { key }).sessions.active.contains(key),
        step(step(w, Op::Finalize { key }), Op::Finalize { key }) == step(
            w,
            Op::Finalize { key },
        ),
{
}

/// Distinct keys are independent: a call about one key leaves another key's
/// registry entry as it was, and leaves its file as it was unless the call's
/// own file is the same path.
pub proof fn law_keys_independent(w: World, op: Op, other: Option<Seq<char>>)
    requires
        op_key(op) != other,
        w.sessions.paths.contains_key(other),
    ensures
        ({
            let w2 = step(w, op);
            let p = w.sessions.paths[other];
            &&& w2.sessions.paths.contains_key(other)
            &&& w2.sessions.paths[other] == p
            &&& w2.sessions.active.contains(other) == w.sessions.active.contains(other)
            &&& op_file(w, op) != p ==> w2.disk.contains_key(p) == w.disk.contains_key(p)
                && contents(w2.disk, p) == contents(w.disk, p)
        }),
{
}

/// Read-back after Finalize yields the bytes that were written before it.
pub proof fn law_read_back_after_finalize(w: World, key: Option<Seq<char>>)
    requires
        w.sessions.active.contains(key),
    ensures
        read_back(step(w, Op::Finalize { key }), key) == read_back(w, key),
{
}

} // verus!
