//! The plain-text replies built from the store and from what the host
//! reported.

use crate::gate::Action;
use crate::store::names_of;
use vstd::prelude::*;
use vstd::string::StringExecFns;

verus! {

/// One line of the status listing.
pub open spec fn status_line(service: Seq<char>, up: bool) -> Seq<char> {
    service + ": "@ + (if up {
        "up"@
    } else {
        "down"@
    }) + "\n"@
}

/// The status listing of `services`, where `up[i]` says whether the i-th is
/// running.
pub open spec fn status_text(services: Seq<Seq<char>>, up: Seq<bool>) -> Seq<char>
    decreases services.len(),
{
    if services.len() == 0 || up.len() != services.len() {
        Seq::empty()
    } else {
        status_text(services.drop_last(), up.drop_last()) + status_line(
            services.last(),
            up.last(),
        )
    }
}

/// Lists each service with whether it is up, one line each, in order.
pub fn status_report(services: &Vec<String>, up: &Vec<bool>) -> (r: String)
    requires
        services@.len() == up@.len(),
    ensures
        r@ == status_text(names_of(services@), up@),
{
    let mut out = String::new();
    let mut i: usize = 0;
    while i < services.len()
        invariant
            0 <= i <= services@.len(),
            services@.len() == up@.len(),
            out@ == status_text(names_of(services@.subrange(0, i as int)), up@.subrange(0, i as int)),
        decreases services@.len() - i,
    {
        let ghost before = out@;
        out.append(services[i].as_str());
        out.append(": ");
        if up[i] {
            out.append("up");
        } else {
            out.append("down");
        }
        out.append("\n");
        let ghost n = names_of(services@.subrange(0, i as int + 1));
        let ghost u = up@.subrange(0, i as int + 1);
        assert(n.drop_last() =~= names_of(services@.subrange(0, i as int)));
        assert(u.drop_last() =~= up@.subrange(0, i as int));
        assert(out@ =~= before + status_line(services@[i as int]@, up@[i as int]));
        i = i + 1;
    }
    assert(services@.subrange(0, i as int) =~= services@);
    assert(up@.subrange(0, i as int) =~= up@);
    out
}

/// The reply to a service command that the host carried out.
pub fn ran_message(action: Action, service: &str) -> (r: String)
    ensures
        r@ == "Successfully ran `/service "@ + action.name_spec() + " "@ + service@ + "`"@,
{
    String::from_str("Successfully ran `/service ").concat(action.name()).concat(" ").concat(
        service,
    ).concat("`")
}

/// The reply to an add-service command that took effect.
pub fn added_message(service: &str) -> (r: String)
    ensures
        r@ == "added "@ + service@ + " to allowed services for this server"@,
{
    String::from_str("added ").concat(service).concat(" to allowed services for this server")
}

} // verus!
