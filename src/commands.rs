//! The command set: the bytes each command puts on the wire, the registration of its correlation
//! id, and the meaning of its reply.
use vstd::prelude::*;
use vstd::string::StringSliceAdditionalSpecFns;
use crate::correlator::{Correlator, Ticket, registered_fresh};
use crate::error::EslError;
use crate::headers::lookup;
use crate::lex::{append, decimal_text, push_decimal};
use crate::parser::{Code, CommandAndApiReplyBody, FreeswitchReply, ReplyView};
use crate::text::{text_is, text_of};

verus! {

/// The hyphenated lower-case text of an identifier: 36 bytes, hyphens at 8, 13, 18 and 23,
/// lower-case hex digits elsewhere. It holds no blank, colon or line feed.
pub open spec fn uuid_text(b: Seq<u8>) -> bool {
    &&& b.len() == 36
    &&& forall|i: int|
        0 <= i < 36 ==> if i == 8 || i == 13 || i == 18 || i == 23 {
            #[trigger] b[i] == 45
        } else {
            (48 <= b[i] <= 57) || (97 <= b[i] <= 102)
        }
}

/// Relies on `uuid::Uuid::new_v4` and its `Display` form, the hyphenated lower-case text: a
/// random identifier in that form.
#[verifier::external_body]
fn new_uuid() -> (r: Vec<u8>)
    ensures
        uuid_text(r@),
{
    uuid::Uuid::new_v4().to_string().into_bytes()
}

pub open spec fn api_frame(command: Seq<u8>) -> Seq<u8> {
    "api ".spec_bytes() + command
}

pub open spec fn bgapi_frame(command: Seq<u8>, job_uuid: Seq<u8>) -> Seq<u8> {
    "bgapi ".spec_bytes() + command + "\nJob-UUID: ".spec_bytes() + job_uuid
}

pub open spec fn execute_frame(
    call_uuid: Seq<u8>,
    app_name: Seq<u8>,
    app_args: Seq<u8>,
    event_uuid: Seq<u8>,
) -> Seq<u8> {
    "sendmsg ".spec_bytes() + call_uuid + "\nexecute-app-name: ".spec_bytes() + app_name
        + "\nexecute-app-arg: ".spec_bytes() + app_args
        + "\ncall-command: execute\nEvent-UUID: ".spec_bytes() + event_uuid
}

/// Names separated by single spaces.
pub open spec fn joined(parts: Seq<Seq<u8>>) -> Seq<u8>
    decreases parts.len(),
{
    if parts.len() == 0 {
        Seq::empty()
    } else if parts.len() == 1 {
        parts[0]
    } else {
        joined(parts.drop_last()) + " ".spec_bytes() + parts.last()
    }
}

pub open spec fn subscribe_frame(events: Seq<Seq<u8>>) -> Seq<u8> {
    "event plain ".spec_bytes() + joined(events)
}

pub open spec fn digits_args(
    min: u8,
    max: u8,
    tries: u8,
    timeout: u64,
    terminators: Seq<u8>,
    file: Seq<u8>,
    invalid_file: Seq<u8>,
    variable_name: Seq<u8>,
) -> Seq<u8> {
    let sp = " ".spec_bytes();
    decimal_text(min as nat) + sp + decimal_text(max as nat) + sp + decimal_text(tries as nat) + sp
        + decimal_text(timeout as nat) + sp + terminators + sp + file + sp + invalid_file + sp
        + variable_name
}

/// The outcome of a reply text: its text on success, an `ApiError` with it on failure.
pub open spec fn text_outcome(code: Code, text: Seq<u8>, r: Result<String, EslError>) -> bool {
    match code {
        Code::Success => r matches Ok(s) && text_is(s@, text),
        Code::Failure => r matches Err(EslError::ApiError(s)) && text_is(s@, text),
    }
}

/// Builds `"api " + command`.
pub fn api_command(command: &str) -> (r: Vec<u8>)
    ensures
        r@ == api_frame(command.spec_bytes()),
{
    let mut r: Vec<u8> = Vec::new();
    append(&mut r, "api ".as_bytes());
    append(&mut r, command.as_bytes());
    r
}

/// What an `api` call returns for its reply.
pub fn api_result(reply: &CommandAndApiReplyBody) -> (r: Result<String, EslError>)
    ensures
        text_outcome(reply.code, reply.reply_text@, r),
{
    let text = text_of(reply.reply_text.as_slice());
    match reply.code {
        Code::Success => Ok(text),
        Code::Failure => Err(EslError::ApiError(text)),
    }
}

/// Builds the subscription command for the given event names.
pub fn subscribe_command(events: &[&str]) -> (r: Vec<u8>)
    ensures
        r@ == subscribe_frame(events@.map_values(|e: &str| e.spec_bytes())),
{
    let ghost names = events@.map_values(|e: &str| e.spec_bytes());
    let mut r: Vec<u8> = Vec::new();
    append(&mut r, "event plain ".as_bytes());
    let ghost head = r@;
    let mut i: usize = 0;
    while i < events.len()
        invariant
            i <= events@.len(),
            names == events@.map_values(|e: &str| e.spec_bytes()),
            head == "event plain ".spec_bytes(),
            r@ == head + joined(names.subrange(0, i as int)),
        decreases events@.len() - i,
    {
        let ghost prev = names.subrange(0, i as int);
        let ghost next = names.subrange(0, i + 1);
        assert(next.drop_last() =~= prev);
        if i > 0 {
            append(&mut r, " ".as_bytes());
        }
        append(&mut r, events[i].as_bytes());
        i += 1;
        proof {
            if i == 1 {
                assert(prev =~= Seq::<Seq<u8>>::empty());
                assert(r@ =~= head + joined(next));
            } else {
                assert(r@ =~= head + joined(next));
            }
        }
    }
    assert(names.subrange(0, i as int) =~= names);
    r
}

/// Builds the command that runs `command` in the background under `job_uuid`.
pub fn bgapi_command(command: &str, job_uuid: &[u8]) -> (r: Vec<u8>)
    ensures
        r@ == bgapi_frame(command.spec_bytes(), job_uuid@),
{
    let mut r: Vec<u8> = Vec::new();
    append(&mut r, "bgapi ".as_bytes());
    append(&mut r, command.as_bytes());
    append(&mut r, "\nJob-UUID: ".as_bytes());
    append(&mut r, job_uuid);
    r
}

/// Starts a background command: picks a job id and registers `waiter` under it before the
/// command exists. Returns the command to send and the id. Fails, registering nothing, when the
/// id drawn already has a waiter.
pub fn prepare_bgapi(jobs: &mut Correlator, command: &str, waiter: Ticket) -> (r: Result<
    (Vec<u8>, Vec<u8>),
    EslError,
>)
    requires
        old(jobs).wf(),
    ensures
        final(jobs).wf(),
        match r {
            Ok((cmd, id)) => registered_fresh(old(jobs)@, final(jobs)@, id@, waiter) && uuid_text(
                id@,
            ) && cmd@ == bgapi_frame(command.spec_bytes(), id@),
            Err(e) => e is InternalError && final(jobs)@ == old(jobs)@,
        },
{
    let id = new_uuid();
    if !jobs.register(id.clone(), waiter) {
        return Err(EslError::InternalError("the generated job id is already in use".to_owned()));
    }
    Ok((bgapi_command(command, id.as_slice()), id))
}

/// What a `bgapi` call returns for the frame that completed its job.
pub fn bgapi_result(reply: &FreeswitchReply) -> (r: Result<String, EslError>)
    ensures
        match reply@ {
            ReplyView::Event(e) => text_outcome(e.code, e.body, r),
            _ => r matches Err(EslError::InternalError(_)),
        },
{
    match reply {
        FreeswitchReply::Event(e) => {
            let text = text_of(e.body.as_slice());
            match e.code {
                Code::Success => Ok(text),
                Code::Failure => Err(EslError::ApiError(text)),
            }
        },
        _ => Err(EslError::InternalError("a background job completed with a non-event frame".to_owned())),
    }
}

/// Builds the command that runs an application on the call `call_uuid`.
pub fn execute_command(call_uuid: &[u8], app_name: &[u8], app_args: &[u8], event_uuid: &[u8]) -> (r:
    Vec<u8>)
    ensures
        r@ == execute_frame(call_uuid@, app_name@, app_args@, event_uuid@),
{
    let mut r: Vec<u8> = Vec::new();
    append(&mut r, "sendmsg ".as_bytes());
    append(&mut r, call_uuid);
    append(&mut r, "\nexecute-app-name: ".as_bytes());
    append(&mut r, app_name);
    append(&mut r, "\nexecute-app-arg: ".as_bytes());
    append(&mut r, app_args);
    append(&mut r, "\ncall-command: execute\nEvent-UUID: ".as_bytes());
    append(&mut r, event_uuid);
    r
}

fn prepare_execute_bytes(
    jobs: &mut Correlator,
    call_uuid: Option<&Vec<u8>>,
    app_name: &[u8],
    app_args: &[u8],
    waiter: Ticket,
) -> (r: Result<(Vec<u8>, Vec<u8>), EslError>)
    requires
        old(jobs).wf(),
    ensures
        final(jobs).wf(),
        match (call_uuid, r) {
            (Some(c), Ok((cmd, id))) => registered_fresh(old(jobs)@, final(jobs)@, id@, waiter)
                && uuid_text(id@) && cmd@ == execute_frame(c@, app_name@, app_args@, id@),
            (Some(_), Err(e)) => e is InternalError && final(jobs)@ == old(jobs)@,
            (None, r) => r matches Err(EslError::InternalError(_)) && final(jobs)@ == old(jobs)@,
        },
{
    match call_uuid {
        None => Err(EslError::InternalError("no call identifier: the handshake is not done".to_owned())),
        Some(c) => {
            let id = new_uuid();
            if !jobs.register(id.clone(), waiter) {
                return Err(
                    EslError::InternalError("the generated event id is already in use".to_owned()),
                );
            }
            Ok((execute_command(c.as_slice(), app_name, app_args, id.as_slice()), id))
        },
    }
}

/// Starts an application on the call: picks an event id and registers `waiter` under it.
/// Without a call identifier nothing is registered and the call fails.
pub fn prepare_execute(
    jobs: &mut Correlator,
    call_uuid: Option<&Vec<u8>>,
    app_name: &str,
    app_args: &str,
    waiter: Ticket,
) -> (r: Result<(Vec<u8>, Vec<u8>), EslError>)
    requires
        old(jobs).wf(),
    ensures
        final(jobs).wf(),
        match (call_uuid, r) {
            (Some(c), Ok((cmd, id))) => registered_fresh(old(jobs)@, final(jobs)@, id@, waiter)
                && uuid_text(id@) && cmd@ == execute_frame(c@, app_name.spec_bytes(), app_args.spec_bytes(), id@),
            (Some(_), Err(e)) => e is InternalError && final(jobs)@ == old(jobs)@,
            (None, r) => r matches Err(EslError::InternalError(_)) && final(jobs)@ == old(jobs)@,
        },
{
    prepare_execute_bytes(jobs, call_uuid, app_name.as_bytes(), app_args.as_bytes(), waiter)
}

/// What an `execute` call returns for the frame that completed its application.
pub fn execute_result(reply: FreeswitchReply) -> (r: Result<CommandAndApiReplyBody, EslError>)
    ensures
        match reply@ {
            ReplyView::CommandAndApiReply(b) => r matches Ok(x) && x@ == b,
            _ => r matches Err(EslError::InternalError(_)),
        },
{
    match reply {
        FreeswitchReply::CommandAndApiReply(b) => Ok(b),
        _ => Err(EslError::InternalError("an application completed with an unexpected frame".to_owned())),
    }
}

/// Builds the arguments of the digit collection application.
pub fn play_and_get_digits_args(
    min: u8,
    max: u8,
    tries: u8,
    timeout: u64,
    terminators: &str,
    file: &str,
    invalid_file: &str,
    variable_name: &[u8],
) -> (r: Vec<u8>)
    ensures
        r@ == digits_args(
            min,
            max,
            tries,
            timeout,
            terminators.spec_bytes(),
            file.spec_bytes(),
            invalid_file.spec_bytes(),
            variable_name@,
        ),
{
    let sp = " ".as_bytes();
    let mut r: Vec<u8> = Vec::new();
    push_decimal(&mut r, min as u64);
    append(&mut r, sp);
    push_decimal(&mut r, max as u64);
    append(&mut r, sp);
    push_decimal(&mut r, tries as u64);
    append(&mut r, sp);
    push_decimal(&mut r, timeout);
    append(&mut r, sp);
    append(&mut r, terminators.as_bytes());
    append(&mut r, sp);
    append(&mut r, file.as_bytes());
    append(&mut r, sp);
    append(&mut r, invalid_file.as_bytes());
    append(&mut r, sp);
    append(&mut r, variable_name);
    r
}

/// Starts the digit collection application: picks the name of the variable that will hold the
/// digits, and registers `waiter` for the completion. Returns the command, its event id and the
/// variable name.
pub fn prepare_play_and_get_digits(
    jobs: &mut Correlator,
    call_uuid: Option<&Vec<u8>>,
    min: u8,
    max: u8,
    tries: u8,
    timeout: u64,
    terminators: &str,
    file: &str,
    invalid_file: &str,
    waiter: Ticket,
) -> (r: Result<(Vec<u8>, Vec<u8>, Vec<u8>), EslError>)
    requires
        old(jobs).wf(),
    ensures
        final(jobs).wf(),
        match (call_uuid, r) {
            (Some(_), Err(e)) => e is InternalError && final(jobs)@ == old(jobs)@,
            (None, r) => r matches Err(EslError::InternalError(_)) && final(jobs)@ == old(jobs)@,
            (Some(c), Ok((cmd, id, var))) => registered_fresh(old(jobs)@, final(jobs)@, id@, waiter)
                && uuid_text(id@) && uuid_text(var@) && cmd@ == execute_frame(
                c@,
                "play_and_get_digits".spec_bytes(),
                digits_args(
                    min,
                    max,
                    tries,
                    timeout,
                    terminators.spec_bytes(),
                    file.spec_bytes(),
                    invalid_file.spec_bytes(),
                    var@,
                ),
                id@,
            ),
        },
{
    if call_uuid.is_none() {
        return Err(EslError::InternalError("no call identifier: the handshake is not done".to_owned()));
    }
    let var = new_uuid();
    let args = play_and_get_digits_args(
        min,
        max,
        tries,
        timeout,
        terminators,
        file,
        invalid_file,
        var.as_slice(),
    );
    match prepare_execute_bytes(
        jobs,
        call_uuid,
        "play_and_get_digits".as_bytes(),
        args.as_slice(),
        waiter,
    ) {
        Ok((cmd, id)) => Ok((cmd, id, var)),
        Err(e) => Err(e),
    }
}

/// The name of the channel variable that holds the collected digits.
pub open spec fn digits_variable(variable_name: Seq<u8>) -> Seq<u8> {
    "variable_".spec_bytes() + variable_name
}

/// The digits that the completion reports, or `NoInput` when it carries no such variable.
pub fn play_and_get_digits_result(reply: &CommandAndApiReplyBody, variable_name: &[u8]) -> (r:
    Result<String, EslError>)
    requires
        reply.wf(),
    ensures
        match lookup(reply.headers@, digits_variable(variable_name@)) {
            Some(v) => r matches Ok(s) && text_is(s@, v),
            None => r matches Err(EslError::NoInput),
        },
{
    let mut key: Vec<u8> = Vec::new();
    append(&mut key, "variable_".as_bytes());
    append(&mut key, variable_name);
    match reply.headers.get(key.as_slice()) {
        Some(v) => Ok(text_of(v.as_slice())),
        None => Err(EslError::NoInput),
    }
}

} // verus!
