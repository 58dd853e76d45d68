//! Conversations with the world outside: what is asked of it, what it answers,
//! and scripts, which say what is asked next whatever was answered so far.
use vstd::prelude::*;

verus! {

/// Something that the world outside is asked for.
#[derive(Clone, Debug, PartialEq, Eq)]
pub enum Request {
    /// Run a program, in a directory if one is given, and capture what it writes.
    Output { argv: Vec<String>, cwd: Option<String> },
    /// Run a program, in a directory if one is given, for its exit status alone.
    Status { argv: Vec<String>, cwd: Option<String> },
    /// Find out whether a path exists.
    Exists { path: String },
    /// Find the canonical form of a path.
    Canonicalize { path: String },
}

/// What the world outside answers.
#[derive(Clone, Debug, PartialEq, Eq)]
pub enum Reply {
    /// The program ran. It has no exit code if a signal ended it.
    Ran { code: Option<i32>, stdout: Vec<u8>, stderr: Vec<u8> },
    /// Whether the path exists.
    Exists(bool),
    /// The canonical form of the path.
    Canonical(String),
    /// It could not be done: the program did not start, the path was not found.
    Failed,
}

/// A request, by the text that it holds.
pub enum RequestView {
    Output { argv: Seq<Seq<char>>, cwd: Option<Seq<char>> },
    Status { argv: Seq<Seq<char>>, cwd: Option<Seq<char>> },
    Exists { path: Seq<char> },
    Canonicalize { path: Seq<char> },
}

/// A reply, by the text and bytes that it holds.
pub enum ReplyView {
    Ran { code: Option<i32>, stdout: Seq<u8>, stderr: Seq<u8> },
    Exists(bool),
    Canonical(Seq<char>),
    Failed,
}

impl DeepView for Request {
    type V = RequestView;

    open spec fn deep_view(&self) -> RequestView {
        match self {
            Request::Output { argv, cwd } => RequestView::Output {
                argv: argv.deep_view(),
                cwd: cwd.deep_view(),
            },
            Request::Status { argv, cwd } => RequestView::Status {
                argv: argv.deep_view(),
                cwd: cwd.deep_view(),
            },
            Request::Exists { path } => RequestView::Exists { path: path@ },
            Request::Canonicalize { path } => RequestView::Canonicalize { path: path@ },
        }
    }
}

impl DeepView for Reply {
    type V = ReplyView;

    open spec fn deep_view(&self) -> ReplyView {
        match self {
            Reply::Ran { code, stdout, stderr } => ReplyView::Ran {
                code: *code,
                stdout: stdout@,
                stderr: stderr@,
            },
            Reply::Exists(found) => ReplyView::Exists(*found),
            Reply::Canonical(path) => ReplyView::Canonical(path@),
            Reply::Failed => ReplyView::Failed,
        }
    }
}

/// What a conversation has come to: all the replies at hand, how many of them
/// have been heard, and the lines that have been logged.
pub struct Record {
    pub replies: Seq<ReplyView>,
    pub heard: nat,
    pub log: Seq<Seq<char>>,
}

/// A conversation to be held: it ends with a value, or logs a line and goes on,
/// or asks for something and goes on as the reply decides.
#[verifier::reject_recursive_types(T)]
pub enum Script<T> {
    End(T),
    Log(Seq<char>, Box<Script<T>>),
    Ask(RequestView, spec_fn(ReplyView) -> Script<T>),
}

/// `script`, and then what `next` makes of the value it ends with.
pub open spec fn chain<A, B>(script: Script<A>, next: spec_fn(A) -> Script<B>) -> Script<B>
    decreases script,
{
    match script {
        Script::End(value) => next(value),
        Script::Log(line, rest) => Script::Log(line, Box::new(chain(*rest, next))),
        Script::Ask(request, react) => Script::Ask(
            request,
            |reply: ReplyView| chain(react(reply), next),
        ),
    }
}

/// What `script` comes to on the replies that are still unheard: the value it
/// ends with, or the first request that no reply answers yet.
pub open spec fn play<T>(script: Script<T>, record: Record) -> (Record, Result<T, RequestView>)
    decreases script,
{
    match script {
        Script::End(value) => (record, Ok(value)),
        Script::Log(line, rest) => play(*rest, Record { log: record.log.push(line), ..record }),
        Script::Ask(request, react) => if record.heard < record.replies.len() {
            play(
                react(record.replies[record.heard as int]),
                Record { heard: record.heard + 1, ..record },
            )
        } else {
            (record, Err(request))
        },
    }
}

/// A script that has ended says no more.
pub broadcast proof fn play_end<T>(value: T, record: Record)
    ensures
        #[trigger] play(Script::End(value), record) == (record, Ok::<T, RequestView>(value)),
{
}

/// A line is logged before the script goes on.
pub broadcast proof fn play_log<T>(line: Seq<char>, rest: Box<Script<T>>, record: Record)
    ensures
        #[trigger] play(Script::Log(line, rest), record) == play(
            *rest,
            Record { log: record.log.push(line), ..record },
        ),
{
}

/// A request takes the next reply, or waits for one.
pub broadcast proof fn play_ask<T>(
    request: RequestView,
    react: spec_fn(ReplyView) -> Script<T>,
    record: Record,
)
    ensures
        #[trigger] play(Script::Ask(request, react), record) == if record.heard
            < record.replies.len() {
            play(
                react(record.replies[record.heard as int]),
                Record { heard: record.heard + 1, ..record },
            )
        } else {
            (record, Err(request))
        },
{
}

/// Scripts that are chained are played one after the other.
pub broadcast proof fn play_chain<A, B>(
    script: Script<A>,
    next: spec_fn(A) -> Script<B>,
    record: Record,
)
    ensures
        #[trigger] play(chain(script, next), record) == match play(script, record) {
            (after, Ok(value)) => play(next(value), after),
            (after, Err(request)) => (after, Err(request)),
        },
    decreases script,
{
    match script {
        Script::End(value) => {},
        Script::Log(line, rest) => {
            play_chain(*rest, next, Record { log: record.log.push(line), ..record });
        },
        Script::Ask(request, react) => {
            if record.heard < record.replies.len() {
                play_chain(
                    react(record.replies[record.heard as int]),
                    next,
                    Record { heard: record.heard + 1, ..record },
                );
            }
        },
    }
}

pub broadcast group group_play {
    play_end,
    play_log,
    play_ask,
    play_chain,
}

/// Replies that come later do not change what has happened: a script that ended
/// ends the same way, and one that waits asks the same request first.
pub proof fn later_replies_keep_the_past<T>(
    script: Script<T>,
    record: Record,
    later: Seq<ReplyView>,
)
    requires
        record.heard <= record.replies.len(),
    ensures
        ({
            let more = Record { replies: record.replies + later, ..record };
            let (after, outcome) = play(script, record);
            let (far, result) = play(script, more);
            &&& outcome is Ok ==> result == outcome && far == Record {
                replies: more.replies,
                ..after
            }
            &&& outcome is Err ==> after.heard == record.replies.len() && after.log.is_prefix_of(
                far.log,
            )
            &&& outcome is Err && later.len() == 0 ==> result == outcome
        }),
    decreases script,
{
    let more = Record { replies: record.replies + later, ..record };
    match script {
        Script::End(value) => {},
        Script::Log(line, rest) => {
            later_replies_keep_the_past(
                *rest,
                Record { log: record.log.push(line), ..record },
                later,
            );
        },
        Script::Ask(request, react) => {
            if record.heard < record.replies.len() {
                let reply = record.replies[record.heard as int];
                assert(more.replies[record.heard as int] == reply);
                later_replies_keep_the_past(
                    react(reply),
                    Record { heard: record.heard + 1, ..record },
                    later,
                );
            } else {
                log_grows(script, more);
                assert(later.len() == 0 ==> more.replies =~= record.replies);
            }
        },
    }
}

/// The log only grows.
pub proof fn log_grows<T>(script: Script<T>, record: Record)
    ensures
        record.log.is_prefix_of(play(script, record).0.log),
        record.heard <= play(script, record).0.heard,
        play(script, record).0.replies == record.replies,
    decreases script,
{
    match script {
        Script::End(value) => {},
        Script::Log(line, rest) => {
            log_grows(*rest, Record { log: record.log.push(line), ..record });
        },
        Script::Ask(request, react) => {
            if record.heard < record.replies.len() {
                log_grows(
                    react(record.replies[record.heard as int]),
                    Record { heard: record.heard + 1, ..record },
                );
            }
        },
    }
}

/// A request that was answered, and the lines that had been logged before it was
/// made.
pub struct Exchange {
    pub request: RequestView,
    pub reply: ReplyView,
    pub log: Seq<Seq<char>>,
}

/// The requests of a script that are answered, in order.
pub open spec fn exchanges<T>(script: Script<T>, record: Record) -> Seq<Exchange>
    decreases script,
{
    match script {
        Script::End(value) => seq![],
        Script::Log(line, rest) => exchanges(
            *rest,
            Record { log: record.log.push(line), ..record },
        ),
        Script::Ask(request, react) => if record.heard < record.replies.len() {
            let reply = record.replies[record.heard as int];
            seq![Exchange { request, reply, log: record.log }] + exchanges(
                react(reply),
                Record { heard: record.heard + 1, ..record },
            )
        } else {
            seq![]
        },
    }
}

/// A script that has ended asks nothing.
pub broadcast proof fn exchanges_end<T>(value: T, record: Record)
    ensures
        #[trigger] exchanges(Script::End(value), record) == Seq::<Exchange>::empty(),
{
}

/// To log a line is to ask nothing.
pub broadcast proof fn exchanges_log<T>(line: Seq<char>, rest: Box<Script<T>>, record: Record)
    ensures
        #[trigger] exchanges(Script::Log(line, rest), record) == exchanges(
            *rest,
            Record { log: record.log.push(line), ..record },
        ),
{
}

/// A request that is answered comes before those that follow it.
pub broadcast proof fn exchanges_ask<T>(
    request: RequestView,
    react: spec_fn(ReplyView) -> Script<T>,
    record: Record,
)
    ensures
        #[trigger] exchanges(Script::Ask(request, react), record) == if record.heard
            < record.replies.len() {
            let reply = record.replies[record.heard as int];
            seq![Exchange { request, reply, log: record.log }] + exchanges(
                react(reply),
                Record { heard: record.heard + 1, ..record },
            )
        } else {
            seq![]
        },
{
}

/// Scripts that are chained ask one after the other.
pub broadcast proof fn exchanges_chain<A, B>(
    script: Script<A>,
    next: spec_fn(A) -> Script<B>,
    record: Record,
)
    ensures
        #[trigger] exchanges(chain(script, next), record) == match play(script, record) {
            (after, Ok(value)) => exchanges(script, record) + exchanges(next(value), after),
            (after, Err(request)) => exchanges(script, record),
        },
    decreases script,
{
    match script {
        Script::End(value) => {
            assert(exchanges(script, record) + exchanges(next(value), record) =~= exchanges(
                next(value),
                record,
            ));
        },
        Script::Log(line, rest) => {
            exchanges_chain(*rest, next, Record { log: record.log.push(line), ..record });
        },
        Script::Ask(request, react) => {
            if record.heard < record.replies.len() {
                let reply = record.replies[record.heard as int];
                let later = Record { heard: record.heard + 1, ..record };
                exchanges_chain(react(reply), next, later);
                let first = seq![Exchange { request, reply, log: record.log }];
                let rest = exchanges(react(reply), later);
                if let (after, Ok(value)) = play(react(reply), later) {
                    assert(first + (rest + exchanges(next(value), after)) =~= first + rest
                        + exchanges(next(value), after));
                }
            }
        },
    }
}

pub broadcast group group_exchanges {
    exchanges_end,
    exchanges_log,
    exchanges_ask,
    exchanges_chain,
}

/// Every answered request takes one reply, in the order of the replies.
pub proof fn exchanges_take_the_replies<T>(script: Script<T>, record: Record)
    requires
        record.heard <= record.replies.len(),
    ensures
        exchanges(script, record).len() == play(script, record).0.heard - record.heard,
        forall|i: int|
            0 <= i < exchanges(script, record).len() ==> (#[trigger] exchanges(
                script,
                record,
            )[i]).reply == record.replies[record.heard + i],
    decreases script,
{
    match script {
        Script::End(value) => {},
        Script::Log(line, rest) => {
            exchanges_take_the_replies(*rest, Record { log: record.log.push(line), ..record });
        },
        Script::Ask(request, react) => {
            if record.heard < record.replies.len() {
                let reply = record.replies[record.heard as int];
                let later = Record { heard: record.heard + 1, ..record };
                exchanges_take_the_replies(react(reply), later);
                let rest = exchanges(react(reply), later);
                assert forall|i: int| 0 <= i < exchanges(script, record).len() implies (
                #[trigger] exchanges(script, record)[i]).reply == record.replies[record.heard
                    + i] by {
                    if i > 0 {
                        assert(exchanges(script, record)[i] == rest[i - 1]);
                    }
                }
            }
        },
    }
}

/// No more replies are heard than there are, and none is taken back.
pub proof fn heard_is_bounded<T>(script: Script<T>, record: Record)
    requires
        record.heard <= record.replies.len(),
    ensures
        record.heard <= play(script, record).0.heard <= record.replies.len(),
        play(script, record).0.replies == record.replies,
    decreases script,
{
    match script {
        Script::End(value) => {},
        Script::Log(line, rest) => {
            heard_is_bounded(*rest, Record { log: record.log.push(line), ..record });
        },
        Script::Ask(request, react) => {
            if record.heard < record.replies.len() {
                heard_is_bounded(
                    react(record.replies[record.heard as int]),
                    Record { heard: record.heard + 1, ..record },
                );
            }
        },
    }
}

/// The requests of a script, in order: those that are answered, and the one that
/// no reply answers yet, if it waits for one.
pub open spec fn requests<T>(script: Script<T>, record: Record) -> Seq<RequestView>
    decreases script,
{
    match script {
        Script::End(value) => seq![],
        Script::Log(line, rest) => requests(
            *rest,
            Record { log: record.log.push(line), ..record },
        ),
        Script::Ask(request, react) => if record.heard < record.replies.len() {
            seq![request] + requests(
                react(record.replies[record.heard as int]),
                Record { heard: record.heard + 1, ..record },
            )
        } else {
            seq![request]
        },
    }
}

/// A script that has ended asks nothing.
pub broadcast proof fn requests_end<T>(value: T, record: Record)
    ensures
        #[trigger] requests(Script::End(value), record) == Seq::<RequestView>::empty(),
{
}

/// To log a line is to ask nothing.
pub broadcast proof fn requests_log<T>(line: Seq<char>, rest: Box<Script<T>>, record: Record)
    ensures
        #[trigger] requests(Script::Log(line, rest), record) == requests(
            *rest,
            Record { log: record.log.push(line), ..record },
        ),
{
}

/// A request comes before those that follow its reply.
pub broadcast proof fn requests_ask<T>(
    request: RequestView,
    react: spec_fn(ReplyView) -> Script<T>,
    record: Record,
)
    ensures
        #[trigger] requests(Script::Ask(request, react), record) == if record.heard
            < record.replies.len() {
            seq![request] + requests(
                react(record.replies[record.heard as int]),
                Record { heard: record.heard + 1, ..record },
            )
        } else {
            seq![request]
        },
{
}

/// Scripts that are chained ask one after the other.
pub broadcast proof fn requests_chain<A, B>(
    script: Script<A>,
    next: spec_fn(A) -> Script<B>,
    record: Record,
)
    ensures
        #[trigger] requests(chain(script, next), record) == match play(script, record) {
            (after, Ok(value)) => requests(script, record) + requests(next(value), after),
            (after, Err(request)) => requests(script, record),
        },
    decreases script,
{
    match script {
        Script::End(value) => {
            assert(requests(script, record) + requests(next(value), record) =~= requests(
                next(value),
                record,
            ));
        },
        Script::Log(line, rest) => {
            requests_chain(*rest, next, Record { log: record.log.push(line), ..record });
        },
        Script::Ask(request, react) => {
            if record.heard < record.replies.len() {
                let reply = record.replies[record.heard as int];
                let later = Record { heard: record.heard + 1, ..record };
                requests_chain(react(reply), next, later);
                let rest = requests(react(reply), later);
                if let (after, Ok(value)) = play(react(reply), later) {
                    assert(seq![request] + (rest + requests(next(value), after)) =~= seq![request]
                        + rest + requests(next(value), after));
                }
            }
        },
    }
}

pub broadcast group group_requests {
    requests_end,
    requests_log,
    requests_ask,
    requests_chain,
}

/// The requests are those of the exchanges, and the one that waits for a reply.
pub proof fn requests_are_those_of_the_exchanges<T>(script: Script<T>, record: Record)
    ensures
        exchanges(script, record).len() <= requests(script, record).len(),
        forall|i: int|
            0 <= i < exchanges(script, record).len() ==> (#[trigger] requests(script, record)[i])
                == exchanges(script, record)[i].request,
        match play(script, record).1 {
            Ok(value) => requests(script, record).len() == exchanges(script, record).len(),
            Err(request) => requests(script, record).len() == exchanges(script, record).len() + 1
                && requests(script, record).last() == request,
        },
    decreases script,
{
    match script {
        Script::End(value) => {},
        Script::Log(line, rest) => {
            requests_are_those_of_the_exchanges(
                *rest,
                Record { log: record.log.push(line), ..record },
            );
        },
        Script::Ask(request, react) => {
            if record.heard < record.replies.len() {
                let reply = record.replies[record.heard as int];
                let later = Record { heard: record.heard + 1, ..record };
                requests_are_those_of_the_exchanges(react(reply), later);
                let asked = requests(react(reply), later);
                let seen = exchanges(react(reply), later);
                assert forall|i: int| 0 <= i < exchanges(script, record).len() implies (
                #[trigger] requests(script, record)[i]) == exchanges(script, record)[i].request by {
                    if i > 0 {
                        assert(requests(script, record)[i] == asked[i - 1]);
                        assert(exchanges(script, record)[i] == seen[i - 1]);
                    }
                }
            }
        },
    }
}

/// Whether every request that a script makes is `good`, answered or not, given
/// what has been logged before it.
pub open spec fn asks_only<T>(
    script: Script<T>,
    record: Record,
    good: spec_fn(RequestView, Seq<Seq<char>>) -> bool,
) -> bool
    decreases script,
{
    match script {
        Script::End(value) => true,
        Script::Log(line, rest) => asks_only(
            *rest,
            Record { log: record.log.push(line), ..record },
            good,
        ),
        Script::Ask(request, react) => {
            &&& good(request, record.log)
            &&& record.heard < record.replies.len() ==> asks_only(
                react(record.replies[record.heard as int]),
                Record { heard: record.heard + 1, ..record },
                good,
            )
        },
    }
}

/// A script that has ended asks nothing.
pub broadcast proof fn asks_end<T>(
    value: T,
    record: Record,
    good: spec_fn(RequestView, Seq<Seq<char>>) -> bool,
)
    ensures
        #[trigger] asks_only(Script::End(value), record, good),
{
}

/// To log a line is to ask nothing.
pub broadcast proof fn asks_log<T>(
    line: Seq<char>,
    rest: Box<Script<T>>,
    record: Record,
    good: spec_fn(RequestView, Seq<Seq<char>>) -> bool,
)
    ensures
        #[trigger] asks_only(Script::Log(line, rest), record, good) == asks_only(
            *rest,
            Record { log: record.log.push(line), ..record },
            good,
        ),
{
}

/// A request is judged before those that follow it.
pub broadcast proof fn asks_ask<T>(
    request: RequestView,
    react: spec_fn(ReplyView) -> Script<T>,
    record: Record,
    good: spec_fn(RequestView, Seq<Seq<char>>) -> bool,
)
    ensures
        #[trigger] asks_only(Script::Ask(request, react), record, good) == (good(
            request,
            record.log,
        ) && (record.heard < record.replies.len() ==> asks_only(
            react(record.replies[record.heard as int]),
            Record { heard: record.heard + 1, ..record },
            good,
        ))),
{
}

/// Scripts that are chained are judged one after the other.
pub broadcast proof fn asks_chain<A, B>(
    script: Script<A>,
    next: spec_fn(A) -> Script<B>,
    record: Record,
    good: spec_fn(RequestView, Seq<Seq<char>>) -> bool,
)
    ensures
        #[trigger] asks_only(chain(script, next), record, good) == (asks_only(script, record, good)
            && match play(script, record) {
            (after, Ok(value)) => asks_only(next(value), after, good),
            (after, Err(request)) => true,
        }),
    decreases script,
{
    match script {
        Script::End(value) => {},
        Script::Log(line, rest) => {
            asks_chain(*rest, next, Record { log: record.log.push(line), ..record }, good);
        },
        Script::Ask(request, react) => {
            if record.heard < record.replies.len() {
                asks_chain(
                    react(record.replies[record.heard as int]),
                    next,
                    Record { heard: record.heard + 1, ..record },
                    good,
                );
            }
        },
    }
}

pub broadcast group group_asks {
    asks_end,
    asks_log,
    asks_ask,
    asks_chain,
}

/// What is good enough for one judge is good enough for a milder one.
pub proof fn asks_weaken<T>(
    script: Script<T>,
    record: Record,
    strict: spec_fn(RequestView, Seq<Seq<char>>) -> bool,
    mild: spec_fn(RequestView, Seq<Seq<char>>) -> bool,
)
    requires
        asks_only(script, record, strict),
        forall|request: RequestView, log: Seq<Seq<char>>|
            strict(request, log) ==> #[trigger] mild(request, log),
    ensures
        asks_only(script, record, mild),
    decreases script,
{
    match script {
        Script::End(value) => {},
        Script::Log(line, rest) => {
            asks_weaken(*rest, Record { log: record.log.push(line), ..record }, strict, mild);
        },
        Script::Ask(request, react) => {
            assert(mild(request, record.log));
            if record.heard < record.replies.len() {
                asks_weaken(
                    react(record.replies[record.heard as int]),
                    Record { heard: record.heard + 1, ..record },
                    strict,
                    mild,
                );
            }
        },
    }
}

/// What every request of a script is like, the answered ones are like, and the
/// one is that no reply answers yet.
pub proof fn every_request_is_judged<T>(
    script: Script<T>,
    record: Record,
    good: spec_fn(RequestView, Seq<Seq<char>>) -> bool,
)
    requires
        asks_only(script, record, good),
    ensures
        forall|i: int|
            0 <= i < exchanges(script, record).len() ==> good(
                (#[trigger] exchanges(script, record)[i]).request,
                exchanges(script, record)[i].log,
            ),
        play(script, record) matches (after, Err(request)) ==> good(request, after.log),
    decreases script,
{
    match script {
        Script::End(value) => {},
        Script::Log(line, rest) => {
            every_request_is_judged(*rest, Record { log: record.log.push(line), ..record }, good);
        },
        Script::Ask(request, react) => {
            if record.heard < record.replies.len() {
                let reply = record.replies[record.heard as int];
                let later = Record { heard: record.heard + 1, ..record };
                every_request_is_judged(react(reply), later, good);
                let rest = exchanges(react(reply), later);
                assert forall|i: int| 0 <= i < exchanges(script, record).len() implies good(
                    (#[trigger] exchanges(script, record)[i]).request,
                    exchanges(script, record)[i].log,
                ) by {
                    if i > 0 {
                        assert(exchanges(script, record)[i] == rest[i - 1]);
                    }
                }
            }
        },
    }
}

/// A conversation as far as the replies at hand take it.
pub struct Conversation<'a> {
    replies: &'a Vec<Reply>,
    heard: usize,
    log: Vec<String>,
}

impl<'a> Conversation<'a> {
    /// What the conversation has come to.
    pub closed spec fn record(&self) -> Record {
        Record {
            replies: self.replies.deep_view(),
            heard: self.heard as nat,
            log: self.log.deep_view(),
        }
    }

    /// A conversation from its start, on the replies that are at hand.
    pub fn new(replies: &'a Vec<Reply>) -> (conversation: Conversation<'a>)
        ensures
            conversation.record() == (Record {
                replies: replies.deep_view(),
                heard: 0,
                log: seq![],
            }),
    {
        let conversation = Conversation { replies, heard: 0, log: Vec::new() };
        assert(conversation.log.deep_view() =~= Seq::<Seq<char>>::empty());
        conversation
    }

    /// The lines logged so far.
    pub fn log(&self) -> (lines: &Vec<String>)
        ensures
            lines.deep_view() == self.record().log,
    {
        &self.log
    }

    /// Asks for something: gives the reply if it is at hand, the request if not.
    pub fn ask(&mut self, request: Request) -> (outcome: Result<&'a Reply, Request>)
        ensures
            match outcome {
                Ok(reply) => {
                    let before = old(self).record();
                    &&& before.heard < before.replies.len()
                    &&& reply.deep_view() == before.replies[before.heard as int]
                    &&& final(self).record() == Record { heard: before.heard + 1, ..before }
                },
                Err(asked) => {
                    &&& asked == request
                    &&& final(self).record() == old(self).record()
                    &&& old(self).record().heard >= old(self).record().replies.len()
                },
            },
    {
        if self.heard < self.replies.len() {
            let reply = &self.replies[self.heard];
            self.heard = self.heard + 1;
            Ok(reply)
        } else {
            Err(request)
        }
    }

    /// Logs a line.
    pub fn say(&mut self, line: String)
        ensures
            final(self).record() == (Record {
                log: old(self).record().log.push(line@),
                ..old(self).record()
            }),
    {
        let ghost before = self.log.deep_view();
        self.log.push(line);
        assert(self.log.deep_view() =~= before.push(line@));
    }
}

/// The outcome of a step of a conversation, by the text that it holds.
pub open spec fn seen<T: DeepView>(outcome: Result<T, Request>) -> Result<T::V, RequestView> {
    match outcome {
        Ok(value) => Ok(value.deep_view()),
        Err(request) => Err(request.deep_view()),
    }
}

/// Whether the program ran and reported success.
pub open spec fn succeeded(reply: ReplyView) -> bool {
    reply matches ReplyView::Ran { code, .. } && code == Some(0i32)
}

impl Reply {
    /// Whether the program ran and reported success.
    pub fn success(&self) -> (yes: bool)
        ensures
            yes == succeeded(self.deep_view()),
    {
        match self {
            Reply::Ran { code, .. } => match code {
                Some(code) => *code == 0,
                None => false,
            },
            _ => false,
        }
    }
}

}
