//! Host calls that record no access.

use vstd::prelude::*;
use vstd::string::*;

use crate::access;
use crate::access::{Access, AccessLog, AccessModel, KeyModel, ResourceKey};
use crate::history;
use crate::history::chain;
use crate::host::{AccessSink, Host, HostError, NoAccess, ResourceKeyRef, SigHash, ValueRef};
use crate::value::{Value, ValueModel};
use crate::vm;

verus! {

/// A host call that recorded no access.
#[derive(Clone, Debug, PartialEq, Eq)]
pub struct SilentCall {
    /// Symbol of the call.
    pub symbol: String,
    /// Signature hash of the call.
    pub sig_hash: SigHash,
}

/// The contents of the first silent call, if there was one.
pub open spec fn silent_model(call: Option<SilentCall>) -> Option<(Seq<char>, SigHash)> {
    match call {
        Some(c) => Some((c.symbol@, c.sig_hash)),
        None => None,
    }
}

/// Keeps the first call that recorded no access: of a call that recorded `recorded` accesses, and
/// of the calls before it.
pub fn note_call(earlier: Option<SilentCall>, symbol: &str, sig_hash: SigHash, recorded: usize) -> (res:
    Option<SilentCall>)
    ensures
        silent_model(res) == (if earlier is None && recorded == 0 {
            Some((symbol@, sig_hash))
        } else {
            silent_model(earlier)
        }),
{
    match earlier {
        Some(c) => Some(c),
        None => if recorded == 0 {
            Some(SilentCall { symbol: symbol.to_owned(), sig_hash })
        } else {
            None
        },
    }
}

/// The accesses that a host can record, in order: it has no way to name an output of a node.
pub open spec fn relayed(accesses: Seq<AccessModel>) -> Seq<AccessModel>
    decreases accesses.len(),
{
    if accesses.len() == 0 {
        seq![]
    } else {
        let before = relayed(accesses.drop_last());
        match accesses.last() {
            AccessModel::Read(KeyModel::NodeOutput { .. }) => before,
            AccessModel::Write(KeyModel::NodeOutput { .. }) => before,
            a => before.push(a),
        }
    }
}

/// Tells a sink of a read. The state of the sink comes back.
pub fn tell_read<A: AccessSink>(access: &mut A, key: ResourceKeyRef<'_>) -> (after: Ghost<A>)
    ensures
        after@ == *final(access),
        exists|m: &mut A|
            *m == *old(access) && *final(m) == *final(access) && #[trigger] call_ensures(
                A::read,
                (m, key),
                (),
            ),
{
    access.read(key);
    Ghost(*access)
}

/// A sink was told of a read, and went from one state to another.
pub open spec fn told_read<A: AccessSink>(before: A, key: KeyModel, after: A) -> bool {
    exists|m: &mut A, k: ResourceKeyRef<'_>, r: Ghost<A>|
        *m == before && access::borrowed_key(k) == key && r@ == after && #[trigger] call_ensures(
            tell_read::<A>,
            (m, k),
            r,
        )
}

/// Tells a sink of a write. The state of the sink comes back.
pub fn tell_write<A: AccessSink>(access: &mut A, key: ResourceKeyRef<'_>) -> (after: Ghost<A>)
    ensures
        after@ == *final(access),
        exists|m: &mut A|
            *m == *old(access) && *final(m) == *final(access) && #[trigger] call_ensures(
                A::write,
                (m, key),
                (),
            ),
{
    access.write(key);
    Ghost(*access)
}

/// A sink was told of a write, and went from one state to another.
pub open spec fn told_write<A: AccessSink>(before: A, key: KeyModel, after: A) -> bool {
    exists|m: &mut A, k: ResourceKeyRef<'_>, r: Ghost<A>|
        *m == before && access::borrowed_key(k) == key && r@ == after && #[trigger] call_ensures(
            tell_write::<A>,
            (m, k),
            r,
        )
}

/// A sink was told of an access, and went from one state to another.
pub open spec fn told_access<A: AccessSink>(before: A, a: AccessModel, after: A) -> bool {
    match a {
        AccessModel::Read(key) => told_read(before, key, after),
        AccessModel::Write(key) => told_write(before, key, after),
    }
}

/// How the states of a sink follow on each other.
pub open spec fn records<A: AccessSink>() -> spec_fn(A, AccessModel, A) -> bool {
    |before: A, a: AccessModel, after: A| told_access(before, a, after)
}

/// Records accesses with another sink: the sink is told each of them that a host can record, in
/// order, and nothing else.
fn forward<A: AccessSink>(log: &AccessLog, access: &mut A)
    ensures
        chain(records::<A>(), *old(access), relayed(log@), *final(access)),
{
    let mut i: usize = 0;
    let ghost first = *access;
    assert(log@.take(0) =~= Seq::<AccessModel>::empty());
    proof {
        history::lemma_none::<A, AccessModel>(records::<A>(), first);
    }
    while i < log.len()
        invariant
            i <= log@.len(),
            first == *old(access),
            chain(records::<A>(), first, relayed(log@.take(i as int)), *access),
        decreases log@.len() - i,
    {
        let ghost before = *access;
        let ghost sent = relayed(log@.take(i as int));
        assert(log@.take(i + 1).drop_last() =~= log@.take(i as int));
        match log.get(i) {
            Some(Access::Read(k)) => match borrowed(k) {
                Some(k) => {
                    let r = tell_read(access, k);
                    proof {
                        let key = access::borrowed_key(k);
                        assert(told_read(before, key, r@));
                        let a = AccessModel::Read(key);
                        history::lemma_push(records::<A>(), first, sent, before, a, *access);
                    }
                },
                None => {},
            },
            Some(Access::Write(k)) => match borrowed(k) {
                Some(k) => {
                    let r = tell_write(access, k);
                    proof {
                        let key = access::borrowed_key(k);
                        assert(told_write(before, key, r@));
                        let a = AccessModel::Write(key);
                        history::lemma_push(records::<A>(), first, sent, before, a, *access);
                    }
                },
                None => {},
            },
            None => {},
        }
        i = i + 1;
    }
    assert(log@.take(i as int) =~= log@);
}

/// A key as a host names it.
fn borrowed(key: &ResourceKey) -> (res: Option<ResourceKeyRef<'_>>)
    ensures
        res is None <==> key is NodeOutput,
        res matches Some(k) ==> access::borrowed_key(k) == key@,
{
    match key {
        ResourceKey::Input(name) => Some(ResourceKeyRef::Input(name.as_str())),
        ResourceKey::HostState { op, key } => Some(
            ResourceKeyRef::HostState { op: SigHash(op.0), key: *key },
        ),
        ResourceKey::OpaqueHost { op } => Some(ResourceKeyRef::OpaqueHost { op: SigHash(op.0) }),
        ResourceKey::NodeOutput { .. } => None,
    }
}

/// A call that a host performed.
#[verifier::ext_equal]
pub struct HostCall {
    /// Symbol of the call.
    pub symbol: Seq<char>,
    /// Signature hash of the call.
    pub sig_hash: SigHash,
    /// Arguments.
    pub args: Seq<ValueModel>,
    /// The accesses that the host recorded, where it had a sink for them.
    pub accesses: Option<Seq<AccessModel>>,
    /// What came back.
    pub reply: Result<(Seq<ValueModel>, u64), HostError>,
}

/// The contents of arguments.
pub open spec fn ref_models(args: Seq<ValueRef<'_>>) -> Seq<ValueModel> {
    args.map_values(|v: ValueRef<'_>| v@)
}

/// The accesses that the host recorded in a call.
pub open spec fn recorded(c: HostCall) -> Seq<AccessModel> {
    match c.accesses {
        Some(accesses) => accesses,
        None => seq![],
    }
}

/// Whether the host was handed a sink in every one of the calls, or in none of them.
pub open spec fn all_handed(calls: Seq<HostCall>, handed: bool) -> bool {
    forall|i: int| 0 <= i < calls.len() ==> (#[trigger] calls[i]).accesses is Some == handed
}

/// The accesses that hosts recorded in calls and that a sink was told of, in order.
pub open spec fn told(calls: Seq<HostCall>) -> Seq<AccessModel>
    decreases calls.len(),
{
    if calls.len() == 0 {
        seq![]
    } else {
        told(calls.drop_last()) + relayed(recorded(calls.last()))
    }
}

/// The first call that recorded no access: `earlier`, or else among `calls`.
pub open spec fn noted_after(
    earlier: Option<(Seq<char>, SigHash)>,
    calls: Seq<HostCall>,
) -> Option<(Seq<char>, SigHash)>
    decreases calls.len(),
{
    if calls.len() == 0 {
        earlier
    } else {
        let c = calls.last();
        let before = noted_after(earlier, calls.drop_last());
        if before is None && c.accesses is Some && c.accesses->0.len() == 0 {
            Some((c.symbol, c.sig_hash))
        } else {
            before
        }
    }
}

/// A sink for accesses, with a record of what it was told, or none.
pub struct Recorded<A: AccessSink> {
    sink: A,
    log: AccessLog,
    present: bool,
}

impl<A: AccessSink> View for Recorded<A> {
    type V = Seq<AccessModel>;

    closed spec fn view(&self) -> Seq<AccessModel> {
        self.log@
    }
}

impl<A: AccessSink> Recorded<A> {
    /// The sink.
    pub closed spec fn inner(&self) -> A {
        self.sink
    }

    /// Whether there is a sink for hosts to be handed.
    pub closed spec fn present(&self) -> bool {
        self.present
    }

    /// A sink that was told nothing.
    pub fn new(sink: A) -> (r: Self)
        ensures
            r@ == Seq::<AccessModel>::empty(),
            r.inner() == sink,
            r.present(),
    {
        Recorded { sink, log: AccessLog::new(), present: true }
    }

    /// Whether there is a sink for hosts to be handed.
    pub fn is_present(&self) -> (b: bool)
        ensures
            b == self.present(),
    {
        self.present
    }

    /// The sink.
    pub fn sink(&self) -> (s: &A)
        ensures
            *s == self.inner(),
    {
        &self.sink
    }

    /// What the sink was told.
    pub fn into_log(self) -> (log: AccessLog)
        ensures
            log@ == self@,
    {
        self.log
    }

    /// Tells the sink of the accesses that a host recorded.
    pub fn tell(&mut self, log: &AccessLog)
        ensures
            noted(*old(self), *final(self), relayed(log@)),
    {
        let ghost before = self.log@;
        let ghost sink = self.sink;
        let mut i: usize = 0;
        assert(log@.take(0) =~= Seq::<AccessModel>::empty());
        assert(self.log@ =~= before + relayed(log@.take(0)));
        while i < log.len()
            invariant
                i <= log@.len(),
                self.sink == sink,
                self.present == old(self).present,
                self.log@ == before + relayed(log@.take(i as int)),
            decreases log@.len() - i,
        {
            assert(log@.take(i + 1).drop_last() =~= log@.take(i as int));
            match log.get(i) {
                Some(a) => {
                    let names_output = matches!(
                        a,
                        Access::Read(ResourceKey::NodeOutput { .. }) | Access::Write(
                            ResourceKey::NodeOutput { .. },
                        )
                    );
                    if !names_output {
                        self.log.push(a.duplicate());
                    }
                },
                None => {},
            }
            i = i + 1;
            assert(self.log@ =~= before + relayed(log@.take(i as int)));
        }
        assert(log@.take(i as int) =~= log@);
        assert(self.sink == old(self).inner());
        forward(log, &mut self.sink);
        assert(self.sink == self.inner());
    }
}

/// A sink was told of more accesses, and nothing else.
pub open spec fn noted<A: AccessSink>(
    before: Recorded<A>,
    after: Recorded<A>,
    more: Seq<AccessModel>,
) -> bool {
    &&& after@ == before@ + more
    &&& after.present() == before.present()
    &&& chain(records::<A>(), before.inner(), more, after.inner())
}

/// A sink was told of nothing.
pub proof fn lemma_noted_none<A: AccessSink>(r: Recorded<A>)
    ensures
        noted(r, r, Seq::<AccessModel>::empty()),
{
    history::lemma_none::<A, AccessModel>(records::<A>(), r.inner());
    assert(r@ + Seq::<AccessModel>::empty() =~= r@);
}

/// A sink was told of accesses, and of others behind them.
pub proof fn lemma_noted_both<A: AccessSink>(
    a: Recorded<A>,
    b: Recorded<A>,
    c: Recorded<A>,
    first: Seq<AccessModel>,
    second: Seq<AccessModel>,
)
    requires
        noted(a, b, first),
        noted(b, c, second),
    ensures
        noted(a, c, first + second),
{
    history::lemma_concat(records::<A>(), a.inner(), first, b.inner(), second, c.inner());
    assert(a@ + first + second =~= a@ + (first + second));
}

impl Recorded<NoAccess> {
    /// No sink.
    pub fn none() -> (r: Self)
        ensures
            r@ == Seq::<AccessModel>::empty(),
            !r.present(),
    {
        Recorded { sink: NoAccess, log: AccessLog::new(), present: false }
    }
}

impl<A: AccessSink> AccessSink for Recorded<A> {
    /// The sink is told of the read.
    fn read(&mut self, key: ResourceKeyRef<'_>)
        ensures
            noted(
                *old(self),
                *final(self),
                seq![AccessModel::Read(access::borrowed_key(key))],
            ),
            exists|m: &mut A|
                *m == old(self).inner() && *final(m) == final(self).inner()
                    && #[trigger] call_ensures(A::read, (m, key), ()),
    {
        let r = tell_read(&mut self.sink, key);
        proof {
            assert(r@ == self.sink);
            let k = access::borrowed_key(key);
            assert(told_read(old(self).inner(), k, r@));
            history::lemma_one(records::<A>(), old(self).inner(), AccessModel::Read(k), r@);
        }
        self.log.push(Access::Read(ResourceKey::from_borrowed(key)));
        assert(self@ =~= old(self)@ + seq![AccessModel::Read(access::borrowed_key(key))]);
    }

    /// The sink is told of the write.
    fn write(&mut self, key: ResourceKeyRef<'_>)
        ensures
            noted(
                *old(self),
                *final(self),
                seq![AccessModel::Write(access::borrowed_key(key))],
            ),
            exists|m: &mut A|
                *m == old(self).inner() && *final(m) == final(self).inner()
                    && #[trigger] call_ensures(A::write, (m, key), ()),
    {
        let r = tell_write(&mut self.sink, key);
        proof {
            assert(r@ == self.sink);
            let k = access::borrowed_key(key);
            assert(told_write(old(self).inner(), k, r@));
            history::lemma_one(records::<A>(), old(self).inner(), AccessModel::Write(k), r@);
        }
        self.log.push(Access::Write(ResourceKey::from_borrowed(key)));
        assert(self@ =~= old(self)@ + seq![AccessModel::Write(access::borrowed_key(key))]);
    }
}

/// Has a host perform a call without a sink for its accesses. The state of the host comes back, too.
pub fn ask_bare<H: Host>(
    host: &mut H,
    symbol: &str,
    sig_hash: SigHash,
    args: &[ValueRef<'_>],
) -> (r: (Result<(Vec<Value>, u64), HostError>, Ghost<H>))
    ensures
        r.1@ == *final(host),
        exists|m: &mut H, none: Option<&mut Recorded<NoAccess>>|
            *m == *old(host) && *final(m) == *final(host) && none is None
                && #[trigger] call_ensures(
                H::call_with_access,
                (m, symbol, sig_hash, args, none),
                r.0,
            ),
{
    let none: Option<&mut Recorded<NoAccess>> = None;
    let res = host.call_with_access(symbol, sig_hash, args, none);
    let ghost after = *host;
    assert(exists|m: &mut H, none: Option<&mut Recorded<NoAccess>>|
        *m == *old(host) && *final(m) == after && none is None && #[trigger] call_ensures(
            H::call_with_access,
            (m, symbol, sig_hash, args, none),
            res,
        ));
    let r = (res, Ghost(after));
    assert(r.0 == res);
    r
}

/// Has a host perform a call with a sink that was told nothing. What the sink was told comes back,
/// and the state of the host.
pub fn ask_handed<H: Host>(
    host: &mut H,
    symbol: &str,
    sig_hash: SigHash,
    args: &[ValueRef<'_>],
) -> (r: (Result<(Vec<Value>, u64), HostError>, AccessLog, Ghost<H>))
    ensures
        r.2@ == *final(host),
        exists|m: &mut H, sink: &mut Recorded<NoAccess>|
            *m == *old(host) && *final(m) == *final(host) && (*sink)@ == Seq::<AccessModel>::empty()
                && (*final(sink))@ == r.1@ && #[trigger] call_ensures(
                H::call_with_access,
                (m, symbol, sig_hash, args, Some(sink)),
                r.0,
            ),
{
    let mut sink = Recorded::new(NoAccess);
    let res = host.call_with_access(symbol, sig_hash, args, Some(&mut sink));
    let ghost after = *host;
    let ghost told = sink@;
    assert(exists|m: &mut H, s: &mut Recorded<NoAccess>|
        *m == *old(host) && *final(m) == after && (*s)@ == Seq::<AccessModel>::empty()
            && (*final(s))@ == told && #[trigger] call_ensures(
            H::call_with_access,
            (m, symbol, sig_hash, args, Some(s)),
            res,
        ));
    let log = sink.into_log();
    let r = (res, log, Ghost(after));
    assert(r.0 == res);
    assert(r.1@ == told);
    r
}

/// A host that was handed no sink answered a call, and went from one state to another.
pub open spec fn answered_bare<H: Host>(
    before: H,
    symbol: Seq<char>,
    sig_hash: SigHash,
    args: Seq<ValueModel>,
    reply: Result<(Seq<ValueModel>, u64), HostError>,
    after: H,
) -> bool {
    exists|
        m: &mut H,
        s: &str,
        a: &[ValueRef<'_>],
        r: (Result<(Vec<Value>, u64), HostError>, Ghost<H>),
    |
        *m == before && s@ == symbol && ref_models(a@) == args && vm::host_reply(r.0) == reply
            && r.1@ == after && #[trigger] call_ensures(ask_bare::<H>, (m, s, sig_hash, a), r)
}

/// A host that was handed a sink answered a call, and went from one state to another.
pub open spec fn answered_handed<H: Host>(
    before: H,
    symbol: Seq<char>,
    sig_hash: SigHash,
    args: Seq<ValueModel>,
    accesses: Seq<AccessModel>,
    reply: Result<(Seq<ValueModel>, u64), HostError>,
    after: H,
) -> bool {
    exists|
        m: &mut H,
        s: &str,
        a: &[ValueRef<'_>],
        r: (Result<(Vec<Value>, u64), HostError>, AccessLog, Ghost<H>),
    |
        *m == before && s@ == symbol && ref_models(a@) == args && vm::host_reply(r.0) == reply
            && r.1@ == accesses && r.2@ == after && #[trigger] call_ensures(
            ask_handed::<H>,
            (m, s, sig_hash, a),
            r,
        )
}

/// A host answered a call, and went from one state to another.
pub open spec fn answered<H: Host>(before: H, c: HostCall, after: H) -> bool {
    match c.accesses {
        Some(accesses) => answered_handed(
            before,
            c.symbol,
            c.sig_hash,
            c.args,
            accesses,
            c.reply,
            after,
        ),
        None => answered_bare(before, c.symbol, c.sig_hash, c.args, c.reply, after),
    }
}

/// How the states of a host follow on each other.
pub open spec fn answers_calls<H: Host>() -> spec_fn(H, HostCall, H) -> bool {
    |before: H, c: HostCall, after: H| answered(before, c, after)
}

/// A host with a history of its calls, of which the first call without an access is noted.
pub struct Watched<H: Host> {
    host: H,
    silent: Option<SilentCall>,
    calls: Ghost<Seq<HostCall>>,
}

impl<H: Host> Watched<H> {
    /// A host of which no call was noted.
    pub fn new(host: H) -> (w: Self)
        ensures
            w.noted() is None,
            w.calls() == Seq::<HostCall>::empty(),
            w.inner() == host,
    {
        Watched { host, silent: None, calls: Ghost(Seq::empty()) }
    }

    /// The calls that the host performed, in order.
    pub closed spec fn calls(&self) -> Seq<HostCall> {
        self.calls@
    }

    /// The host.
    pub closed spec fn inner(&self) -> H {
        self.host
    }

    /// The call that was noted.
    pub closed spec fn noted(&self) -> Option<(Seq<char>, SigHash)> {
        silent_model(self.silent)
    }

    /// Takes the call that was noted.
    pub fn take_silent(&mut self) -> (call: Option<SilentCall>)
        ensures
            silent_model(call) == old(self).noted(),
            final(self).noted() is None,
            final(self).calls() == old(self).calls(),
            final(self).inner() == old(self).inner(),
    {
        let mut call: Option<SilentCall> = None;
        std::mem::swap(&mut call, &mut self.silent);
        call
    }

    /// Has the host that is watched perform a call. Where the host is handed a sink, its accesses are
    /// recorded, and the call is noted where it is the first that recorded none.
    pub fn perform(
        &mut self,
        symbol: &str,
        sig_hash: SigHash,
        args: &[ValueRef<'_>],
        handed: bool,
    ) -> (r: (Result<(Vec<Value>, u64), HostError>, AccessLog))
        ensures
            !handed ==> r.1@ == Seq::<AccessModel>::empty(),
            ({
                let call = HostCall {
                    symbol: symbol@,
                    sig_hash,
                    args: ref_models(args@),
                    accesses: if handed {
                        Some(r.1@)
                    } else {
                        None
                    },
                    reply: vm::host_reply(r.0),
                };
                &&& final(self).calls() == old(self).calls().push(call)
                &&& final(self).noted() == noted_after(old(self).noted(), seq![call])
                &&& answered(old(self).inner(), call, final(self).inner())
            }),
    {
        let ghost first = self.host;
        if handed {
            let (res, log, after) = ask_handed(&mut self.host, symbol, sig_hash, args);
            let ghost call = HostCall {
                symbol: symbol@,
                sig_hash,
                args: ref_models(args@),
                accesses: Some(log@),
                reply: vm::host_reply(res),
            };
            proof {
                assert(after@ == self.host);
                assert(answered_handed(
                    first,
                    symbol@,
                    sig_hash,
                    ref_models(args@),
                    log@,
                    vm::host_reply(res),
                    after@,
                ));
                self.calls@ = self.calls@.push(call);
                assert(seq![call].drop_last() =~= Seq::<HostCall>::empty());
                reveal_with_fuel(noted_after, 2);
            }
            let earlier = self.take_silent();
            self.silent = note_call(earlier, symbol, sig_hash, log.len());
            (res, log)
        } else {
            let (res, after) = ask_bare(&mut self.host, symbol, sig_hash, args);
            let ghost call = HostCall {
                symbol: symbol@,
                sig_hash,
                args: ref_models(args@),
                accesses: None,
                reply: vm::host_reply(res),
            };
            proof {
                assert(after@ == self.host);
                assert(answered_bare(
                    first,
                    symbol@,
                    sig_hash,
                    ref_models(args@),
                    vm::host_reply(res),
                    after@,
                ));
                self.calls@ = self.calls@.push(call);
                assert(seq![call].drop_last() =~= Seq::<HostCall>::empty());
                reveal_with_fuel(noted_after, 2);
            }
            (res, AccessLog::new())
        }
    }
}

impl<H: Host> Host for Watched<H> {
    /// The host that is watched performs the call, without a sink.
    fn call(&mut self, symbol: &str, sig_hash: SigHash, args: &[ValueRef<'_>]) -> (res: Result<
        (Vec<Value>, u64),
        HostError,
    >)
        ensures
            ({
                let call = HostCall {
                    symbol: symbol@,
                    sig_hash,
                    args: ref_models(args@),
                    accesses: None,
                    reply: vm::host_reply(res),
                };
                &&& final(self).calls() == old(self).calls().push(call)
                &&& final(self).noted() == old(self).noted()
                &&& answered(old(self).inner(), call, final(self).inner())
            }),
    {
        let (res, _log) = self.perform(symbol, sig_hash, args, false);
        proof {
            let call = self.calls().last();
            assert(seq![call].drop_last() =~= Seq::<HostCall>::empty());
            reveal_with_fuel(noted_after, 2);
        }
        res
    }

    /// The host that is watched performs the call. Where there is a sink, the host records its
    /// accesses, the sink is told of them in order, and the call is noted where it is the first that
    /// recorded none. Where there is none, the host is handed none.
    fn call_with_access(
        &mut self,
        symbol: &str,
        sig_hash: SigHash,
        args: &[ValueRef<'_>],
        access: Option<&mut Recorded<NoAccess>>,
    ) -> (res: Result<(Vec<Value>, u64), HostError>)
        ensures
            final(self).calls().len() == old(self).calls().len() + 1,
            final(self).calls().drop_last() == old(self).calls(),
            ({
                let call = final(self).calls().last();
                &&& call.symbol == symbol@
                &&& call.sig_hash == sig_hash
                &&& call.args == ref_models(args@)
                &&& call.accesses is Some == access is Some
                &&& call.reply == vm::host_reply(res)
                &&& final(self).noted() == noted_after(old(self).noted(), seq![call])
                &&& answered(old(self).inner(), call, final(self).inner())
            }),
            match access {
                Some(sink) => noted(
                    *sink,
                    *final(sink),
                    relayed(recorded(final(self).calls().last())),
                ),
                None => true,
            },
    {
        match access {
            Some(sink) => {
                let (res, log) = self.perform(symbol, sig_hash, args, true);
                sink.tell(&log);
                assert(recorded(self.calls().last()) == log@);
                assert(self.calls().drop_last() =~= old(self).calls());
                res
            },
            None => {
                let (res, _log) = self.perform(symbol, sig_hash, args, false);
                assert(self.calls().drop_last() =~= old(self).calls());
                res
            },
        }
    }
}

} // verus!
