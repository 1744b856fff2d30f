//! The process-isolated backend's bookkeeping: one record per live slave,
//! holding the identity of its child process and the two endpoints bound for
//! it. The registry owns the handles; this module ties each live handle to
//! exactly one record, keeps every transport endpoint private to one
//! instance, and plans each operation as the exact framed message to put on
//! that instance's command channel. The unverifiable rim around it spawns
//! the processes, moves the bytes, and reports back what arrived.
//!
//! Instantiation runs in the documented order: allocate a handle, bind fresh
//! endpoints, read the descriptor, spawn the child, wait for its handshake,
//! and only then commit the record — any failure on the way aborts the
//! allocation, and the registry keeps no trace of it.

use crate::config::{join_path, spawn_arguments, spec_decimal, SlaveConfiguration};
use crate::protocol::{
    encode_command, frame_message, spec_enc_command, spec_frame, Command, CommandView,
    Fmi2ValueKind, Fmi2Values,
};
use crate::registry::{SlaveHandle, SlaveRegistry};
use crate::status::Fmi2Status;
use crate::wire::bytes_views;
use vstd::prelude::*;
use vstd::string::StringSliceAdditionalSpecFns;

verus! {

/// What the backend keeps for one live slave: its handle, the identity of
/// its child process, and the two endpoints bound for it. The handshake
/// endpoint is not kept: it has served by the time a record is committed.
#[derive(Clone, Copy, Debug, PartialEq, Eq, Structural)]
pub struct InstanceRecord {
    pub handle: SlaveHandle,
    pub process_id: u64,
    pub command_port: u16,
    pub logging_port: u16,
}

/// Why the backend refused an operation.
#[derive(Clone, Copy, Debug, PartialEq, Eq, Structural)]
pub enum BackendError {
    /// The handle is not tied to a live instance.
    UnknownHandle,
    /// The handle of the record to commit was never allocated.
    HandleNotAllocated,
    /// The handle of the record to commit already has a live instance.
    DuplicateRecord,
    /// An endpoint of the record to commit already serves a live instance.
    EndpointInUse,
    /// The serialized command does not fit a 32-bit frame header.
    MessageTooLarge,
}

impl InstanceRecord {
    /// Whether this record holds the given endpoint.
    pub open spec fn uses_port(self, p: u16) -> bool {
        self.command_port == p || self.logging_port == p
    }
}

/// The backend that runs each slave in a process of its own, spawned from
/// the configured interpreter and reached over its own channels.
pub struct InterpreterBackend {
    registry: SlaveRegistry,
    instances: Vec<InstanceRecord>,
    interpreter_name: Vec<u8>,
}

/// Whether some record in `rs` carries the handle `h`.
pub open spec fn seq_has_handle(rs: Seq<InstanceRecord>, h: i32) -> bool {
    exists|i: int| 0 <= i < rs.len() && rs[i].handle == h
}

/// Whether some record in `rs` holds the endpoint `p`.
pub open spec fn seq_uses_port(rs: Seq<InstanceRecord>, p: u16) -> bool {
    exists|i: int| 0 <= i < rs.len() && rs[i].uses_port(p)
}

/// No two records of `rs` carry the same handle.
pub open spec fn handles_distinct(rs: Seq<InstanceRecord>) -> bool {
    forall|i: int, j: int|
        0 <= i < j < rs.len() ==> #[trigger] rs[i].handle != #[trigger] rs[j].handle
}

/// No two transport endpoints anywhere in `rs` coincide — neither across
/// records nor within one.
pub open spec fn ports_distinct(rs: Seq<InstanceRecord>) -> bool {
    &&& forall|i: int, j: int|
        0 <= i < j < rs.len() ==> !(#[trigger] rs[i]).uses_port((#[trigger] rs[j]).command_port)
            && !rs[i].uses_port(rs[j].logging_port)
    &&& forall|i: int|
        0 <= i < rs.len() ==> (#[trigger] rs[i]).command_port != rs[i].logging_port
}

/// Every record's handle in `rs` is allocated in `reg`.
pub open spec fn handles_allocated(rs: Seq<InstanceRecord>, reg: SlaveRegistry) -> bool {
    forall|i: int| 0 <= i < rs.len() ==> reg.is_active(#[trigger] rs[i].handle)
}

impl InterpreterBackend {
    /// The records of the live instances.
    pub closed spec fn records(self) -> Seq<InstanceRecord> {
        self.instances@
    }

    /// The name the interpreter is invoked by.
    pub closed spec fn interpreter(self) -> Seq<u8> {
        self.interpreter_name@
    }

    /// Whether `h` is an allocated handle (live, or still mid-instantiation).
    pub open spec fn is_allocated(self, h: i32) -> bool {
        self.reg().is_active(h)
    }

    /// The handle registry.
    pub closed spec fn reg(self) -> SlaveRegistry {
        self.registry
    }

    /// Whether `h` is tied to a live instance.
    pub open spec fn has_record(self, h: i32) -> bool {
        seq_has_handle(self.records(), h)
    }

    /// Whether some live instance holds the endpoint `p`.
    pub open spec fn port_in_use(self, p: u16) -> bool {
        seq_uses_port(self.records(), p)
    }

    /// Well-formedness: every record's handle is allocated, no two records
    /// share a handle, and no two transport endpoints in the whole backend
    /// coincide — neither across instances nor within one.
    pub open spec fn wf(self) -> bool {
        &&& self.reg().wf()
        &&& handles_allocated(self.records(), self.reg())
        &&& handles_distinct(self.records())
        &&& ports_distinct(self.records())
    }

    /// A fresh backend for the given interpreter: nothing is allocated and
    /// nothing is live. The caller has checked that the interpreter can be
    /// invoked at all, as instantiation would otherwise fail later.
    pub fn new(interpreter_name: Vec<u8>) -> (r: InterpreterBackend)
        ensures
            r.wf(),
            r.records().len() == 0,
            r.interpreter() == interpreter_name@,
            forall|g: i32| !r.is_allocated(g),
            forall|g: i32| !r.has_record(g),
    {
        InterpreterBackend {
            registry: SlaveRegistry::new(),
            instances: Vec::new(),
            interpreter_name,
        }
    }

    /// How many instances are live.
    pub fn instance_count(&self) -> (r: usize)
        ensures
            r == self.records().len(),
    {
        self.instances.len()
    }

    /// The first step of instantiation: allocates the lowest free handle.
    /// The handle is not yet live — committing or aborting the
    /// instantiation decides what becomes of it.
    pub fn get_free_handle(&mut self) -> (h: SlaveHandle)
        requires
            old(self).wf(),
            old(self).reg().active_seq().len() < 0x7fff_ffff,
        ensures
            final(self).wf(),
            h >= 0,
            !old(self).is_allocated(h),
            final(self).is_allocated(h),
            forall|k: i32| 0 <= k < h ==> old(self).is_allocated(k),
            forall|g: i32| final(self).is_allocated(g) == (old(self).is_allocated(g) || g == h),
            final(self).records() == old(self).records(),
            final(self).interpreter() == old(self).interpreter(),
            !final(self).has_record(h),
    {
        let h = self.registry.get_free_handle();
        proof {
            let rs = old(self).records();
            assert(final(self).records() == rs);
            assert forall|i: int|
                0 <= i < rs.len() implies final(self).reg().is_active(#[trigger] rs[i].handle) by {
                assert(old(self).reg().is_active(rs[i].handle));
            }
            assert(handles_allocated(rs, final(self).reg()));
            assert(!seq_has_handle(rs, h)) by {
                if seq_has_handle(rs, h) {
                    let i = choose|i: int| 0 <= i < rs.len() && rs[i].handle == h;
                    assert(old(self).reg().is_active(rs[i].handle));
                }
            }
        }
        h
    }

    /// Undoes a handle allocation whose instantiation failed — the spawn
    /// did not happen, or the handshake was malformed. The registry is left
    /// exactly as it was before the allocation, and no record appears.
    pub fn abort_instantiation(&mut self, h: SlaveHandle)
        requires
            old(self).wf(),
            !old(self).has_record(h),
        ensures
            final(self).wf(),
            forall|g: i32| final(self).is_allocated(g) == (old(self).is_allocated(g) && g != h),
            final(self).records() == old(self).records(),
            final(self).interpreter() == old(self).interpreter(),
    {
        self.registry.release_handle(h);
        proof {
            let rs = old(self).records();
            assert(final(self).records() == rs);
            assert forall|i: int|
                0 <= i < rs.len() implies final(self).reg().is_active(#[trigger] rs[i].handle) by {
                assert(old(self).reg().is_active(rs[i].handle));
                if rs[i].handle == h {
                    assert(seq_has_handle(rs, h));
                }
            }
            assert(handles_allocated(rs, final(self).reg()));
        }
    }

    /// Whether some live instance already holds the endpoint `p`.
    pub fn endpoint_in_use(&self, p: u16) -> (r: bool)
        ensures
            r == self.port_in_use(p),
    {
        let mut i: usize = 0;
        while i < self.instances.len()
            invariant
                i <= self.records().len(),
                forall|j: int| 0 <= j < i ==> !(#[trigger] self.records()[j]).uses_port(p),
            decreases self.records().len() - i,
        {
            let rec = &self.instances[i];
            if rec.command_port == p || rec.logging_port == p {
                return true;
            }
            i += 1;
        }
        false
    }

    /// Looks a live handle up. The record, if any, is the one committed for
    /// this handle.
    pub fn lookup_instance(&self, h: SlaveHandle) -> (r: Option<&InstanceRecord>)
        ensures
            (match r {
                Some(rec) => self.has_record(h) && self.records().contains(*rec) && rec.handle
                    == h,
                None => !self.has_record(h),
            }),
    {
        let mut i: usize = 0;
        while i < self.instances.len()
            invariant
                i <= self.records().len(),
                forall|j: int| 0 <= j < i ==> (#[trigger] self.records()[j]).handle != h,
            decreases self.records().len() - i,
        {
            if self.instances[i].handle == h {
                return Some(&self.instances[i]);
            }
            i += 1;
        }
        None
    }

    /// The last step of instantiation: after the spawn succeeded and the
    /// handshake arrived, ties the record to its handle. The handle must
    /// have been allocated, must not be live yet, and the record's
    /// endpoints must be its own — exactly then the record is taken, and
    /// every other instance is left untouched.
    pub fn commit_instance(&mut self, rec: InstanceRecord) -> (r: Result<(), BackendError>)
        requires
            old(self).wf(),
        ensures
            final(self).wf(),
            final(self).interpreter() == old(self).interpreter(),
            (match r {
                Ok(()) => {
                    &&& old(self).is_allocated(rec.handle)
                    &&& !old(self).has_record(rec.handle)
                    &&& !old(self).port_in_use(rec.command_port)
                    &&& !old(self).port_in_use(rec.logging_port)
                    &&& rec.command_port != rec.logging_port
                    &&& final(self).records() == old(self).records().push(rec)
                    &&& final(self).reg() == old(self).reg()
                    &&& final(self).has_record(rec.handle)
                    &&& forall|g: i32|
                        g != rec.handle ==> final(self).has_record(g) == old(self).has_record(g)
                },
                Err(e) => {
                    &&& final(self).records() == old(self).records()
                    &&& final(self).reg() == old(self).reg()
                    &&& (e == BackendError::HandleNotAllocated ==> !old(self).is_allocated(
                        rec.handle,
                    ))
                    &&& (e == BackendError::DuplicateRecord ==> old(self).has_record(rec.handle))
                    &&& (e == BackendError::EndpointInUse ==> old(self).port_in_use(
                        rec.command_port,
                    ) || old(self).port_in_use(rec.logging_port) || rec.command_port
                        == rec.logging_port)
                    &&& (e == BackendError::HandleNotAllocated || e == BackendError::DuplicateRecord
                        || e == BackendError::EndpointInUse)
                },
            }),
    {
        if !self.registry.contains_handle(rec.handle) {
            return Err(BackendError::HandleNotAllocated);
        }
        if let Some(_existing) = self.lookup_instance(rec.handle) {
            return Err(BackendError::DuplicateRecord);
        }
        if rec.command_port == rec.logging_port {
            return Err(BackendError::EndpointInUse);
        }
        if self.endpoint_in_use(rec.command_port) {
            return Err(BackendError::EndpointInUse);
        }
        if self.endpoint_in_use(rec.logging_port) {
            return Err(BackendError::EndpointInUse);
        }
        let ghost pre = self.instances@;
        self.instances.push(rec);
        proof {
            let post = self.instances@;
            assert(pre == old(self).records());
            assert(post == final(self).records());
            assert(post == pre.push(rec));
            assert(post[post.len() - 1] == rec);
            assert(seq_has_handle(post, rec.handle));
            assert forall|g: i32|
                g != rec.handle implies seq_has_handle(post, g) == seq_has_handle(pre, g) by {
                if seq_has_handle(pre, g) {
                    let i = choose|i: int| 0 <= i < pre.len() && pre[i].handle == g;
                    assert(post[i].handle == g);
                }
                if seq_has_handle(post, g) {
                    let i = choose|i: int| 0 <= i < post.len() && post[i].handle == g;
                    assert(i < pre.len());
                    assert(pre[i].handle == g);
                }
            }
            assert forall|i: int|
                0 <= i < post.len() implies final(self).reg().is_active(
                #[trigger] post[i].handle,
            ) by {
                if i < pre.len() {
                    assert(old(self).reg().is_active(pre[i].handle));
                } else {
                    assert(post[i] == rec);
                }
            }
            assert forall|i: int, j: int|
                0 <= i < j < post.len() implies #[trigger] post[i].handle
                != #[trigger] post[j].handle by {
                if j < pre.len() {
                    assert(pre[i].handle != pre[j].handle);
                } else {
                    assert(post[j] == rec);
                    assert(post[i] == pre[i]);
                    assert(pre[i].handle != rec.handle) by {
                        if pre[i].handle == rec.handle {
                            assert(seq_has_handle(pre, rec.handle));
                        }
                    }
                }
            }
            assert forall|i: int, j: int|
                0 <= i < j < post.len() implies !(#[trigger] post[i]).uses_port(
                (#[trigger] post[j]).command_port,
            ) && !post[i].uses_port(post[j].logging_port) by {
                if j < pre.len() {
                    assert(!pre[i].uses_port(pre[j].command_port));
                    assert(!pre[i].uses_port(pre[j].logging_port));
                } else {
                    assert(post[j] == rec);
                    assert(post[i] == pre[i]);
                    assert(!pre[i].uses_port(rec.command_port)) by {
                        if pre[i].uses_port(rec.command_port) {
                            assert(seq_uses_port(pre, rec.command_port));
                        }
                    }
                    assert(!pre[i].uses_port(rec.logging_port)) by {
                        if pre[i].uses_port(rec.logging_port) {
                            assert(seq_uses_port(pre, rec.logging_port));
                        }
                    }
                }
            }
            assert forall|i: int|
                0 <= i < post.len() implies (#[trigger] post[i]).command_port
                != post[i].logging_port by {
                if i < pre.len() {
                    assert(pre[i].command_port != pre[i].logging_port);
                } else {
                    assert(post[i] == rec);
                }
            }
        }
        Ok(())
    }
}

} // verus!

verus! {

impl InterpreterBackend {
    /// Frees a live instance: the best-effort farewell command has been
    /// sent already, and the handle's channels and process record leave
    /// the registry unconditionally. The caller takes the returned record
    /// — ownership of the teardown of that process moves with it. Every
    /// other instance is untouched, and the handle itself returns to the
    /// pool.
    pub fn free_instance(&mut self, h: SlaveHandle) -> (r: Option<InstanceRecord>)
        requires
            old(self).wf(),
        ensures
            final(self).wf(),
            final(self).interpreter() == old(self).interpreter(),
            forall|g: i32| final(self).is_allocated(g) == (old(self).is_allocated(g) && g != h),
            !final(self).has_record(h),
            forall|g: i32| g != h ==> final(self).has_record(g) == old(self).has_record(g),
            forall|i: int|
                0 <= i < final(self).records().len() ==> old(self).records().contains(
                    #[trigger] final(self).records()[i],
                ),
            forall|i: int|
                0 <= i < old(self).records().len() && (#[trigger] old(self).records()[i]).handle
                    != h ==> final(self).records().contains(old(self).records()[i]),
            (match r {
                Some(rec) => {
                    &&& old(self).records().contains(rec)
                    &&& rec.handle == h
                    &&& old(self).has_record(h)
                    &&& final(self).records().len() == old(self).records().len() - 1
                },
                None => !old(self).has_record(h) && final(self).records() == old(self).records(),
            }),
    {
        self.registry.release_handle(h);
        let ghost pre = old(self).records();
        let mut i: usize = 0;
        while i < self.instances.len()
            invariant
                old(self).wf(),
                pre == old(self).records(),
                self.instances@ == pre,
                i <= pre.len(),
                forall|j: int| 0 <= j < i ==> (#[trigger] pre[j]).handle != h,
                forall|g: i32|
                    self.registry.is_active(g) == (old(self).is_allocated(g) && g != h),
                self.registry.wf(),
                self.interpreter_name@ == old(self).interpreter(),
            decreases pre.len() - i,
        {
            if self.instances[i].handle == h {
                let rec = self.instances.remove(i);
                proof {
                    let post = self.instances@;
                    pre.remove_ensures(i as int);
                    assert(post == pre.remove(i as int));
                    assert(post == final(self).records());
                    assert(final(self).reg() == self.registry);
                    assert(forall|g: i32|
                        final(self).reg().is_active(g) == (old(self).is_allocated(g) && g != h));
                    assert(rec == pre[i as int]);
                    assert(seq_has_handle(pre, h));
                    assert(pre.contains(rec));
                    // Each surviving record sits one slot earlier or stays.
                    assert forall|a: int|
                        0 <= a < post.len() implies final(self).reg().is_active(
                        #[trigger] post[a].handle,
                    ) && post[a].handle != h && pre.contains(post[a]) by {
                        let pa: int = if a < i { a } else { a + 1 };
                        assert(post[a] == pre[pa]);
                        assert(old(self).reg().is_active(pre[pa].handle));
                        assert(pre[pa].handle != pre[i as int].handle);
                        assert(final(self).reg().is_active(post[a].handle) == (old(
                            self,
                        ).is_allocated(post[a].handle) && post[a].handle != h));
                    }
                    assert(handles_allocated(post, final(self).reg()));
                    assert(!seq_has_handle(post, h));
                    assert forall|a: int, b: int|
                        0 <= a < b < post.len() implies #[trigger] post[a].handle
                        != #[trigger] post[b].handle by {
                        let pa: int = if a < i { a } else { a + 1 };
                        let pb: int = if b < i { b } else { b + 1 };
                        assert(post[a] == pre[pa]);
                        assert(post[b] == pre[pb]);
                        assert(pre[pa].handle != pre[pb].handle);
                    }
                    assert forall|a: int, b: int|
                        0 <= a < b < post.len() implies !(#[trigger] post[a]).uses_port(
                        (#[trigger] post[b]).command_port,
                    ) && !post[a].uses_port(post[b].logging_port) by {
                        let pa: int = if a < i { a } else { a + 1 };
                        let pb: int = if b < i { b } else { b + 1 };
                        assert(post[a] == pre[pa]);
                        assert(post[b] == pre[pb]);
                        assert(!pre[pa].uses_port(pre[pb].command_port));
                        assert(!pre[pa].uses_port(pre[pb].logging_port));
                    }
                    assert forall|a: int|
                        0 <= a < post.len() implies (#[trigger] post[a]).command_port
                        != post[a].logging_port by {
                        let pa: int = if a < i { a } else { a + 1 };
                        assert(post[a] == pre[pa]);
                        assert(pre[pa].command_port != pre[pa].logging_port);
                    }
                    assert forall|g: i32|
                        g != h implies seq_has_handle(post, g) == seq_has_handle(pre, g) by {
                        if seq_has_handle(pre, g) {
                            let w = choose|w: int| 0 <= w < pre.len() && pre[w].handle == g;
                            assert(w != i);
                            if w < i {
                                assert(post[w].handle == g);
                            } else {
                                assert(post[w - 1].handle == g);
                            }
                        }
                        if seq_has_handle(post, g) {
                            let w = choose|w: int| 0 <= w < post.len() && post[w].handle == g;
                            let pw: int = if w < i { w } else { w + 1 };
                            assert(pre[pw].handle == g);
                        }
                    }
                    assert forall|a: int|
                        0 <= a < pre.len() && (#[trigger] pre[a]).handle != h implies post.contains(
                        pre[a],
                    ) by {
                        assert(a != i);
                        if a < i {
                            assert(post[a] == pre[a]);
                        } else {
                            assert(post[a - 1] == pre[a]);
                        }
                    }
                }
                return Some(rec);
            }
            i += 1;
        }
        proof {
            assert(final(self).records() == pre);
            assert(final(self).reg() == self.registry);
            assert(forall|g: i32|
                final(self).reg().is_active(g) == (old(self).is_allocated(g) && g != h));
            assert(!seq_has_handle(pre, h)) by {
                if seq_has_handle(pre, h) {
                    let w = choose|w: int| 0 <= w < pre.len() && pre[w].handle == h;
                    assert(pre[w].handle != h);
                }
            }
            assert forall|a: int|
                0 <= a < pre.len() implies final(self).reg().is_active(
                #[trigger] pre[a].handle,
            ) by {
                assert(old(self).reg().is_active(pre[a].handle));
                assert(pre[a].handle != h);
                assert(final(self).reg().is_active(pre[a].handle) == (old(self).is_allocated(
                    pre[a].handle,
                ) && pre[a].handle != h));
            }
            assert(handles_allocated(pre, final(self).reg()));
            assert forall|a: int|
                0 <= a < pre.len() implies pre.contains(#[trigger] pre[a]) by {}
        }
        None
    }

    /// Backend-wide teardown. Every record leaves the backend and is handed
    /// to the caller, which must terminate each record's child process: a
    /// supervisor duty, not optional cleanup. Afterwards nothing is live
    /// and nothing is allocated.
    pub fn teardown(&mut self) -> (r: Vec<InstanceRecord>)
        requires
            old(self).wf(),
        ensures
            final(self).wf(),
            final(self).interpreter() == old(self).interpreter(),
            r@ == old(self).records(),
            final(self).records().len() == 0,
            forall|g: i32| !final(self).is_allocated(g),
            forall|g: i32| !final(self).has_record(g),
    {
        self.registry.clear();
        let mut out: Vec<InstanceRecord> = Vec::new();
        core::mem::swap(&mut out, &mut self.instances);
        proof {
            assert(final(self).records().len() == 0);
            assert forall|g: i32| !final(self).has_record(g) by {
                if seq_has_handle(final(self).records(), g) {
                    let w = choose|w: int|
                        0 <= w < final(self).records().len() && final(self).records()[w].handle
                            == g;
                }
            }
        }
        out
    }
}

/// Concurrent multi-instance isolation, as an invariant: in a well-formed
/// backend no two live instances share a handle and no two share a
/// transport endpoint, so a command addressed to one instance cannot reach
/// another.
pub proof fn lemma_instances_isolated(b: InterpreterBackend)
    requires
        b.wf(),
    ensures
        forall|i: int, j: int|
            0 <= i < b.records().len() && 0 <= j < b.records().len() && i != j ==> (
            #[trigger] b.records()[i]).handle != (#[trigger] b.records()[j]).handle,
        forall|i: int, j: int|
            0 <= i < b.records().len() && 0 <= j < b.records().len() && i != j ==> !(
            #[trigger] b.records()[i]).uses_port((#[trigger] b.records()[j]).command_port) && !(
            b.records()[i]).uses_port(b.records()[j].logging_port),
{
    assert forall|i: int, j: int|
        0 <= i < b.records().len() && 0 <= j < b.records().len() && i != j implies (
    #[trigger] b.records()[i]).handle != (#[trigger] b.records()[j]).handle by {
        if i < j {
            assert(b.records()[i].handle != b.records()[j].handle);
        } else {
            assert(b.records()[j].handle != b.records()[i].handle);
        }
    }
    assert forall|i: int, j: int|
        0 <= i < b.records().len() && 0 <= j < b.records().len() && i != j implies !(
    #[trigger] b.records()[i]).uses_port((#[trigger] b.records()[j]).command_port) && !(
    b.records()[i]).uses_port(b.records()[j].logging_port) by {
        if i < j {
            assert(!b.records()[i].uses_port(b.records()[j].command_port));
            assert(!b.records()[i].uses_port(b.records()[j].logging_port));
        } else {
            assert(!b.records()[j].uses_port(b.records()[i].command_port));
            assert(!b.records()[j].uses_port(b.records()[i].logging_port));
        }
    }
}

} // verus!

verus! {

impl InterpreterBackend {
    /// Plans one command round-trip on a live handle: exactly one framed
    /// request goes out, exactly one reply comes back. The caller puts the
    /// returned bytes on the instance's command channel and hands the reply
    /// to the matching decoder.
    fn plan_command(&self, handle: SlaveHandle, c: Command) -> (r: Result<Vec<u8>, BackendError>)
        requires
            c@.encodable(),
        ensures
            (match r {
                Ok(bytes) => {
                    &&& self.has_record(handle)
                    &&& spec_enc_command(c@).len() <= u32::MAX
                    &&& bytes@ == spec_frame(spec_enc_command(c@))
                },
                Err(e) => {
                    &&& (e == BackendError::UnknownHandle ==> !self.has_record(handle))
                    &&& (e == BackendError::MessageTooLarge ==> self.has_record(handle)
                        && spec_enc_command(c@).len() > u32::MAX)
                    &&& (e == BackendError::UnknownHandle || e == BackendError::MessageTooLarge)
                },
            }),
    {
        match self.lookup_instance(handle) {
            None => Err(BackendError::UnknownHandle),
            Some(_rec) => {
                let msg = encode_command(&c);
                if msg.len() as u64 > u32::MAX as u64 {
                    Err(BackendError::MessageTooLarge)
                } else {
                    Ok(frame_message(&msg))
                }
            },
        }
    }

    /// The framed request that switches debug logging for a slave's
    /// categories on or off; the reply is a bare status.
    pub fn set_debug_logging(
        &self,
        handle: SlaveHandle,
        categories: Vec<Vec<u8>>,
        logging_on: bool,
    ) -> (r: Result<Vec<u8>, BackendError>)
        requires
            categories@.len() <= u32::MAX,
            forall|i: int|
                0 <= i < categories@.len() ==> #[trigger] bytes_views(categories@)[i].len()
                    <= u32::MAX,
        ensures
            (match r {
                Ok(bytes) => self.has_record(handle) && bytes@ == spec_frame(
                    spec_enc_command(
                        (CommandView::SetDebugLogging {
                            categories: bytes_views(categories@),
                            logging_on,
                        }),
                    ),
                ),
                Err(e) => {
                    &&& (e == BackendError::UnknownHandle ==> !self.has_record(handle))
                    &&& (e == BackendError::MessageTooLarge ==> self.has_record(handle)
                        && spec_enc_command(
                        (CommandView::SetDebugLogging {
                            categories: bytes_views(categories@),
                            logging_on,
                        }),
                    ).len() > u32::MAX)
                    &&& (e == BackendError::UnknownHandle || e == BackendError::MessageTooLarge)
                },
            }),
    {
        self.plan_command(handle, Command::SetDebugLogging { categories, logging_on })
    }

    /// The framed request that sets a slave's experiment bounds: the start
    /// time, and — where defined — the tolerance and the stop time, each a
    /// 64-bit real carried as its bit pattern. The reply is a bare status.
    pub fn setup_experiment(
        &self,
        handle: SlaveHandle,
        start_time: u64,
        tolerance: Option<u64>,
        stop_time: Option<u64>,
    ) -> (r: Result<Vec<u8>, BackendError>)
        ensures
            (match r {
                Ok(bytes) => self.has_record(handle) && bytes@ == spec_frame(
                    spec_enc_command(
                        (CommandView::SetupExperiment { start_time, tolerance, stop_time }),
                    ),
                ),
                Err(e) => e == BackendError::UnknownHandle && !self.has_record(handle),
            }),
    {
        let r = self.plan_command(
            handle,
            Command::SetupExperiment { start_time, tolerance, stop_time },
        );
        proof {
            lemma_short_command_fits(
                (CommandView::SetupExperiment { start_time, tolerance, stop_time }),
            );
        }
        r
    }

    /// The framed request that puts a slave into initialization mode.
    pub fn enter_initialization_mode(&self, handle: SlaveHandle) -> (r: Result<
        Vec<u8>,
        BackendError,
    >)
        ensures
            (match r {
                Ok(bytes) => self.has_record(handle) && bytes@ == spec_frame(
                    spec_enc_command(CommandView::EnterInitializationMode),
                ),
                Err(e) => e == BackendError::UnknownHandle && !self.has_record(handle),
            }),
    {
        let r = self.plan_command(handle, Command::EnterInitializationMode);
        proof {
            lemma_short_command_fits(CommandView::EnterInitializationMode);
        }
        r
    }

    /// The framed request that takes a slave out of initialization mode.
    pub fn exit_initialization_mode(&self, handle: SlaveHandle) -> (r: Result<
        Vec<u8>,
        BackendError,
    >)
        ensures
            (match r {
                Ok(bytes) => self.has_record(handle) && bytes@ == spec_frame(
                    spec_enc_command(CommandView::ExitInitializationMode),
                ),
                Err(e) => e == BackendError::UnknownHandle && !self.has_record(handle),
            }),
    {
        let r = self.plan_command(handle, Command::ExitInitializationMode);
        proof {
            lemma_short_command_fits(CommandView::ExitInitializationMode);
        }
        r
    }

    /// The framed request that terminates a slave's simulation.
    pub fn terminate(&self, handle: SlaveHandle) -> (r: Result<Vec<u8>, BackendError>)
        ensures
            (match r {
                Ok(bytes) => self.has_record(handle) && bytes@ == spec_frame(
                    spec_enc_command(CommandView::Terminate),
                ),
                Err(e) => e == BackendError::UnknownHandle && !self.has_record(handle),
            }),
    {
        let r = self.plan_command(handle, Command::Terminate);
        proof {
            lemma_short_command_fits(CommandView::Terminate);
        }
        r
    }

    /// The framed request that resets a slave to its freshly instantiated
    /// state.
    pub fn reset(&self, handle: SlaveHandle) -> (r: Result<Vec<u8>, BackendError>)
        ensures
            (match r {
                Ok(bytes) => self.has_record(handle) && bytes@ == spec_frame(
                    spec_enc_command(CommandView::Reset),
                ),
                Err(e) => e == BackendError::UnknownHandle && !self.has_record(handle),
            }),
    {
        let r = self.plan_command(handle, Command::Reset);
        proof {
            lemma_short_command_fits(CommandView::Reset);
        }
        r
    }

    /// The best-effort farewell request sent before an instance's record is
    /// removed; whatever the reply, the instance is freed afterwards.
    pub fn free_instance_request(&self, handle: SlaveHandle) -> (r: Result<Vec<u8>, BackendError>)
        ensures
            (match r {
                Ok(bytes) => self.has_record(handle) && bytes@ == spec_frame(
                    spec_enc_command(CommandView::FreeInstance),
                ),
                Err(e) => e == BackendError::UnknownHandle && !self.has_record(handle),
            }),
    {
        let r = self.plan_command(handle, Command::FreeInstance);
        proof {
            lemma_short_command_fits(CommandView::FreeInstance);
        }
        r
    }

    /// The framed request that advances a slave by one communication step;
    /// the times are 64-bit reals carried as bit patterns, and the reply is
    /// a bare status.
    pub fn do_step(
        &self,
        handle: SlaveHandle,
        current_time: u64,
        step_size: u64,
        no_set_state_prior: bool,
    ) -> (r: Result<Vec<u8>, BackendError>)
        ensures
            (match r {
                Ok(bytes) => self.has_record(handle) && bytes@ == spec_frame(
                    spec_enc_command(
                        (CommandView::DoStep { current_time, step_size, no_set_state_prior }),
                    ),
                ),
                Err(e) => e == BackendError::UnknownHandle && !self.has_record(handle),
            }),
    {
        let r = self.plan_command(
            handle,
            Command::DoStep { current_time, step_size, no_set_state_prior },
        );
        proof {
            lemma_short_command_fits(
                (CommandView::DoStep { current_time, step_size, no_set_state_prior }),
            );
        }
        r
    }

    /// The framed request that sets a batch of values on a slave; the reply
    /// is a bare status.
    pub fn set_values(&self, handle: SlaveHandle, references: Vec<u32>, values: Fmi2Values) -> (r:
        Result<Vec<u8>, BackendError>)
        requires
            references@.len() <= u32::MAX,
            values@.encodable(),
        ensures
            (match r {
                Ok(bytes) => self.has_record(handle) && bytes@ == spec_frame(
                    spec_enc_command(
                        (CommandView::SetValues { references: references@, values: values@ }),
                    ),
                ),
                Err(e) => {
                    &&& (e == BackendError::UnknownHandle ==> !self.has_record(handle))
                    &&& (e == BackendError::MessageTooLarge ==> self.has_record(handle)
                        && spec_enc_command(
                        (CommandView::SetValues { references: references@, values: values@ }),
                    ).len() > u32::MAX)
                    &&& (e == BackendError::UnknownHandle || e == BackendError::MessageTooLarge)
                },
            }),
    {
        self.plan_command(handle, Command::SetValues { references, values })
    }

    /// The framed request that reads a batch of values of one kind from a
    /// slave; the reply carries the values exactly when the status is no
    /// more severe than a warning, and is decoded by the get-reply decoder.
    pub fn get_values(&self, handle: SlaveHandle, kind: Fmi2ValueKind, references: Vec<u32>) -> (r:
        Result<Vec<u8>, BackendError>)
        requires
            references@.len() <= u32::MAX,
        ensures
            (match r {
                Ok(bytes) => self.has_record(handle) && bytes@ == spec_frame(
                    spec_enc_command((CommandView::GetValues { kind, references: references@ })),
                ),
                Err(e) => {
                    &&& (e == BackendError::UnknownHandle ==> !self.has_record(handle))
                    &&& (e == BackendError::MessageTooLarge ==> self.has_record(handle)
                        && spec_enc_command(
                        (CommandView::GetValues { kind, references: references@ }),
                    ).len() > u32::MAX)
                    &&& (e == BackendError::UnknownHandle || e == BackendError::MessageTooLarge)
                },
            }),
    {
        self.plan_command(handle, Command::GetValues { kind, references })
    }

    /// The exact command line for a new slave process: the configured
    /// interpreter, the entry script, the script and class the descriptor
    /// names — the script resolved inside the resource directory — the
    /// instance name, and the three freshly bound endpoints.
    pub fn plan_spawn(
        &self,
        config: &SlaveConfiguration,
        resources_dir: &Vec<u8>,
        instance_name: &Vec<u8>,
        handshake_port: u16,
        command_port: u16,
        logging_port: u16,
    ) -> (args: Vec<Vec<u8>>)
        ensures
            bytes_views(args@) == seq![
                self.interpreter(),
                "slave_process.py".spec_bytes(),
                "--slave-script".spec_bytes(),
                resources_dir@ + seq![47u8] + config.slave_script@,
                "--slave-class".spec_bytes(),
                config.slave_class@,
                "--instance-name".spec_bytes(),
                instance_name@,
                "--handshake-port".spec_bytes(),
                spec_decimal(handshake_port as nat),
                "--command-port".spec_bytes(),
                spec_decimal(command_port as nat),
                "--logging-port".spec_bytes(),
                spec_decimal(logging_port as nat),
            ],
    {
        let script_path = join_path(resources_dir, &config.slave_script);
        spawn_arguments(
            &self.interpreter_name,
            &script_path,
            &config.slave_class,
            instance_name,
            handshake_port,
            command_port,
            logging_port,
        )
    }
}

/// A command without list arguments always fits a frame.
proof fn lemma_short_command_fits(c: CommandView)
    requires
        c.opcode() == 1 || c.opcode() == 2 || c.opcode() == 3 || c.opcode() == 4 || c.opcode()
            == 5 || c.opcode() == 8 || c.opcode() == 9,
    ensures
        spec_enc_command(c).len() <= u32::MAX,
{
    vstd::bytes::lemma_auto_spec_u64_to_from_le_bytes();
}

/// Writes a get-operation's values into the caller's output buffer, and
/// only when everything is in order: a status no more severe than a
/// warning, values present, and as many of them as the buffer holds. On
/// any more severe status the buffer is left untouched, byte for byte.
pub fn fill_output<T>(dest: &mut Vec<T>, status: Fmi2Status, values: Option<Vec<T>>) -> (written:
    bool)
    ensures
        written == (status.spec_at_most_warning() && (match values {
            Some(vs) => vs@.len() == old(dest)@.len(),
            None => false,
        })),
        written ==> (match values {
            Some(vs) => final(dest)@ == vs@,
            None => false,
        }),
        !written ==> final(dest)@ == old(dest)@,
{
    if status.is_at_most_warning() {
        match values {
            Some(vs) => {
                if vs.len() == dest.len() {
                    *dest = vs;
                    true
                } else {
                    false
                }
            },
            None => false,
        }
    } else {
        false
    }
}

} // verus!

verus! {

impl InterpreterBackend {
    /// How many handles are allocated — live instances and instantiations
    /// still in flight together. Allocation requires this to stay below
    /// the handle type's range, and this getter lets a caller test that
    /// bound first.
    pub fn allocated_count(&self) -> (r: usize)
        ensures
            r == self.reg().active_seq().len(),
    {
        self.registry.active_count()
    }
}

} // verus!
