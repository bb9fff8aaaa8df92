//! One step of a session: a statement is handed to the context, and what the
//! context refuses becomes a message for the user.
use vstd::prelude::*;
use crate::ast::{Axiom, Proof, Statement, Theorem};
use crate::context::{proof_fault, statement_fault, with_proof, Context};
use crate::error::Fault;
use crate::model::{Binding, Env, Name, Term};
use crate::parser::{parse, parse_line};
use crate::subst::SubstTracker;

verus! {

/// The model of a [`Statement`].
pub enum Command {
    Axiom(Name, Term),
    Theorem(Name, Term),
    Proof(Name, Term),
}

impl View for Statement {
    type V = Command;

    open spec fn view(&self) -> Command {
        match self {
            Statement::Axiom(a) => Command::Axiom(a.name@, a.typ@),
            Statement::TH(t) => Command::Theorem(t.name@, t.typ@),
            Statement::PF(p) => Command::Proof(p.name@, p.value@),
        }
    }
}

/// Why `env` refuses the command, if it does, paired with the supply's counter
/// after the check.
pub open spec fn command_fault(env: Env, command: Command, c: nat, fuel: nat) -> (
    Option<Fault>,
    nat,
) {
    match command {
        Command::Axiom(v, typ) => statement_fault(env, v, typ, c, fuel),
        Command::Theorem(v, typ) => statement_fault(env, v, typ, c, fuel),
        Command::Proof(v, proof) => proof_fault(env, v, proof, c, fuel),
    }
}

/// `env` after the command, where it is accepted.
pub open spec fn after_command(env: Env, command: Command) -> Env {
    match command {
        Command::Axiom(v, typ) => env.insert(v, Binding::Axiom { typ }),
        Command::Theorem(v, typ) => env.insert(v, Binding::Unproved { typ }),
        Command::Proof(v, proof) => with_proof(env, v, proof),
    }
}

/// No step removes an entry, changes a stated type, or touches an axiom, and
/// a theorem that has a proof keeps having one. So an axiom stays an axiom
/// through every later step, and every later proof given for it is refused.
pub proof fn lemma_step_keeps_entries(env: Env, command: Command, c: nat, fuel: nat, k: Name)
    requires
        command_fault(env, command, c, fuel).0 is None,
        env.contains_key(k),
    ensures
        after_command(env, command).contains_key(k),
        after_command(env, command)[k].typ() == env[k].typ(),
        env[k] is Axiom ==> after_command(env, command)[k] == env[k],
        env[k] is Proved ==> after_command(env, command)[k] is Proved,
{
}

/// What a step of the session leaves behind: the context is changed where
/// the command is accepted and only there, and the message is that of the
/// fault where it is refused.
pub open spec fn step_done(
    before: Env,
    command: Command,
    c: nat,
    fuel: nat,
    after: Env,
    c_after: nat,
    message: Option<String>,
) -> bool {
    let (fault, c1) = command_fault(before, command, c, fuel);
    &&& c_after == c1
    &&& match fault {
        Some(f) => message matches Some(m) && m@ == f.diagnostic() && after == before,
        None => message is None && after == after_command(before, command),
    }
}

/// States an axiom. The result is the message to show where the context
/// refuses it.
pub fn process_axiom(ax: Axiom, ctx: &mut Context, trk: &mut SubstTracker) -> (r: Option<String>)
    ensures
        step_done(
            old(ctx)@,
            Command::Axiom(ax.name@, ax.typ@),
            old(trk).level(),
            old(trk).fuel(),
            final(ctx)@,
            final(trk).level(),
            r,
        ),
        final(trk).fuel() == old(trk).fuel(),
{
    match ctx.add_axiom(ax.name, ax.typ, trk) {
        Ok(_) => None,
        Err(e) => Some(e.message()),
    }
}

/// States a theorem. The result is the message to show where the context
/// refuses it.
pub fn process_unproven(th: Theorem, ctx: &mut Context, trk: &mut SubstTracker) -> (r: Option<
    String,
>)
    ensures
        step_done(
            old(ctx)@,
            Command::Theorem(th.name@, th.typ@),
            old(trk).level(),
            old(trk).fuel(),
            final(ctx)@,
            final(trk).level(),
            r,
        ),
        final(trk).fuel() == old(trk).fuel(),
{
    match ctx.add_theorem(th.name, th.typ, trk) {
        Ok(_) => None,
        Err(e) => Some(e.message()),
    }
}

/// Gives the proof of a theorem. The result is the message to show where the
/// context refuses it.
pub fn process_proven(pf: Proof, ctx: &mut Context, trk: &mut SubstTracker) -> (r: Option<String>)
    ensures
        step_done(
            old(ctx)@,
            Command::Proof(pf.name@, pf.value@),
            old(trk).level(),
            old(trk).fuel(),
            final(ctx)@,
            final(trk).level(),
            r,
        ),
        final(trk).fuel() == old(trk).fuel(),
{
    match ctx.extend_type(&pf.name, pf.value, trk) {
        Ok(_) => None,
        Err(e) => Some(e.message()),
    }
}

/// Hands a statement to the context operation that it names.
pub fn process_statement(stmt: Statement, ctx: &mut Context, trk: &mut SubstTracker) -> (r:
    Option<String>)
    ensures
        step_done(
            old(ctx)@,
            stmt@,
            old(trk).level(),
            old(trk).fuel(),
            final(ctx)@,
            final(trk).level(),
            r,
        ),
        final(trk).fuel() == old(trk).fuel(),
{
    match stmt {
        Statement::Axiom(a) => process_axiom(a, ctx, trk),
        Statement::TH(ut) => process_unproven(ut, ctx, trk),
        Statement::PF(pt) => process_proven(pt, ctx, trk),
    }
}

/// What the session answers to a line.
#[derive(Debug)]
pub enum Reply {
    /// The statement was accepted.
    Accepted,
    /// The statement was refused, with the message to show.
    Refused(String),
    /// The line is no statement.
    NotAStatement,
}

impl Reply {
    /// The message of a refusal.
    pub open spec fn message(self) -> Option<String> {
        match self {
            Reply::Refused(m) => Some(m),
            _ => None,
        }
    }
}

/// Reads a line as a statement and hands it to the context. A line that is
/// no statement changes nothing.
pub fn process(line: &str, ctx: &mut Context, trk: &mut SubstTracker) -> (r: Reply)
    ensures
        match parse_line(line@) {
            Some(command) => {
                &&& !(r is NotAStatement)
                &&& step_done(
                    old(ctx)@,
                    command,
                    old(trk).level(),
                    old(trk).fuel(),
                    final(ctx)@,
                    final(trk).level(),
                    r.message(),
                )
            },
            None => {
                &&& r is NotAStatement
                &&& final(ctx)@ == old(ctx)@
                &&& final(trk).level() == old(trk).level()
            },
        },
        final(trk).fuel() == old(trk).fuel(),
{
    match parse(line) {
        Some(stmt) => match process_statement(stmt, ctx, trk) {
            Some(message) => Reply::Refused(message),
            None => Reply::Accepted,
        },
        None => Reply::NotAStatement,
    }
}

} // verus!
