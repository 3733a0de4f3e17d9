//! The command authorization gate: which requests may go ahead.

use crate::persist::{document_of, toml_text_of, SaveError};
use crate::store::{added, allowed, allowed_service, ServersCfg};
use vstd::prelude::*;
use vstd::string::StringExecFns;

verus! {

/// What may be done to a service.
#[derive(Debug, PartialEq, Eq, Structural, Clone, Copy)]
pub enum Action {
    Start,
    Stop,
    Restart,
}

/// The action that a command option names, if any.
pub open spec fn action_of(s: Seq<char>) -> Option<Action> {
    if s == "start"@ {
        Some(Action::Start)
    } else if s == "stop"@ {
        Some(Action::Stop)
    } else if s == "restart"@ {
        Some(Action::Restart)
    } else {
        None
    }
}

impl Action {
    /// The word that names the action, as the host's service manager takes it.
    pub open spec fn name_spec(self) -> Seq<char> {
        match self {
            Action::Start => "start"@,
            Action::Stop => "stop"@,
            Action::Restart => "restart"@,
        }
    }

    /// The word that names the action.
    pub fn name(&self) -> (r: &'static str)
        ensures
            r@ == self.name_spec(),
    {
        proof {
            reveal_strlit("start");
            reveal_strlit("stop");
            reveal_strlit("restart");
        }
        match self {
            Action::Start => "start",
            Action::Stop => "stop",
            Action::Restart => "restart",
        }
    }
}

/// The actions on offer, in the order they are listed to users.
pub fn service_actions() -> (r: Vec<Action>)
    ensures
        r@ == seq![Action::Start, Action::Stop, Action::Restart],
{
    let mut r: Vec<Action> = Vec::new();
    r.push(Action::Start);
    r.push(Action::Stop);
    r.push(Action::Restart);
    assert(r@ =~= seq![Action::Start, Action::Stop, Action::Restart]);
    r
}

/// Reads an action word; only the three exact words are actions.
pub fn parse_action(s: &str) -> (r: Option<Action>)
    ensures
        r == action_of(s@),
{
    let word = s.to_owned();
    if word == String::from_str("start") {
        Some(Action::Start)
    } else if word == String::from_str("stop") {
        Some(Action::Stop)
    } else if word == String::from_str("restart") {
        Some(Action::Restart)
    } else {
        None
    }
}

/// Why a request was turned down.
#[derive(Debug, PartialEq, Eq, Structural, Clone, Copy)]
pub enum Rejection {
    /// The command lacked its action or service option.
    InvalidArgs,
    /// The action is not one on offer, or the guild may not operate the
    /// service; the two are not told apart.
    InvalidServiceOrAction,
}

impl Rejection {
    /// The text shown to the caller.
    pub open spec fn message_spec(self) -> Seq<char> {
        match self {
            Rejection::InvalidArgs => "Invalid args"@,
            Rejection::InvalidServiceOrAction => "Invalid service or action"@,
        }
    }

    /// The text shown to the caller.
    pub fn message(&self) -> (r: String)
        ensures
            r@ == self.message_spec(),
    {
        match self {
            Rejection::InvalidArgs => String::from_str("Invalid args"),
            Rejection::InvalidServiceOrAction => String::from_str("Invalid service or action"),
        }
    }
}

/// Decides a run-service request of guild `tenant`, given its action and
/// service options where both are present. An approved request comes back
/// as the action and the service to hand to the service manager.
pub fn authorize_service(cfg: &ServersCfg, tenant: u64, args: Option<(&str, &str)>) -> (r: Result<
    (Action, String),
    Rejection,
>)
    ensures
        args is None ==> r == Err::<(Action, String), Rejection>(Rejection::InvalidArgs),
        args matches Some((a, s)) ==> {
            if action_of(a@) is Some && allowed(cfg@, tenant, s@) {
                r matches Ok((act, svc)) && act == action_of(a@)->0 && svc@ == s@
            } else {
                r == Err::<(Action, String), Rejection>(Rejection::InvalidServiceOrAction)
            }
        },
{
    match args {
        None => Err(Rejection::InvalidArgs),
        Some((a, s)) => match parse_action(a) {
            Some(act) => {
                if allowed_service(cfg, tenant, s) {
                    Ok((act, s.to_owned()))
                } else {
                    Err(Rejection::InvalidServiceOrAction)
                }
            },
            None => Err(Rejection::InvalidServiceOrAction),
        },
    }
}

/// Whether `caller` may change allow-lists: only the application's owner
/// may, and where the owner is unknown nobody may.
pub fn authorize_add(caller: u64, owner: Option<u64>) -> (r: bool)
    ensures
        r == (owner == Some(caller)),
{
    match owner {
        Some(o) => o == caller,
        None => false,
    }
}

/// Why an add-service request did not take effect.
#[derive(Debug, PartialEq, Eq, Structural, Clone, Copy)]
pub enum AddError {
    /// The caller is not the application's owner.
    NotOwner,
    /// The command lacked its service option.
    MissingService,
    /// The store could not be written out; the add was taken back.
    Save(SaveError),
}

/// What an accepted add-service request leaves to do: write `text` to the
/// file. Where that fails, `created` says how to take the add back.
pub struct Pending {
    pub text: String,
    pub created: bool,
}

/// Runs an add-service request of `caller` in guild `tenant`: checks that
/// the caller is the owner, appends the service, and renders the file text
/// of the new store. It succeeds exactly when the owner asks with a service.
pub fn add_service(
    cfg: &mut ServersCfg,
    caller: u64,
    owner: Option<u64>,
    tenant: u64,
    service: Option<String>,
) -> (r: Result<Pending, AddError>)
    requires
        old(cfg).wf(),
    ensures
        final(cfg).wf(),
        owner != Some(caller) ==> r == Err::<Pending, AddError>(AddError::NotOwner),
        owner == Some(caller) && service is None ==> r == Err::<Pending, AddError>(
            AddError::MissingService,
        ),
        r is Err ==> final(cfg)@ == old(cfg)@ && final(cfg).tenant_order() == old(
            cfg,
        ).tenant_order(),
        owner == Some(caller) && service is Some ==> r is Ok,
        r matches Ok(p) ==> {
            &&& owner == Some(caller)
            &&& service matches Some(s) && final(cfg)@ == added(old(cfg)@, tenant, s@)
            &&& p.text@ == toml_text_of(document_of(final(cfg)@, final(cfg).tenant_order()))
            &&& p.created == !old(cfg)@.contains_key(tenant)
            &&& final(cfg).tenant_order() == if p.created {
                old(cfg).tenant_order().push(tenant)
            } else {
                old(cfg).tenant_order()
            }
        },
{
    if !authorize_add(caller, owner) {
        return Err(AddError::NotOwner);
    }
    let service = match service {
        Some(s) => s,
        None => return Err(AddError::MissingService),
    };
    let created = cfg.add(tenant, service);
    match cfg.encode() {
        Ok(text) => Ok(Pending { text, created }),
        Err(e) => Err(AddError::Save(e)),
    }
}

} // verus!
