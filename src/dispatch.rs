//! What is handed to the messaging application: one script per recipient
//! kept, in order.
use vstd::prelude::*;
use vstd::string::StringExecFns;
use crate::recipients::{name_view, Recipient};
use crate::script::{automation_script, script_text};
use crate::template::{render_message, rendered};
use crate::text::opt_str_view;

verus! {

/// One send to perform: who it is for and the script that sends it.
pub struct Outgoing {
    pub name: Option<String>,
    pub number: String,
    pub script: String,
}

/// The script for one recipient: its message rendered from the template,
/// addressed to its number over `service`.
pub open spec fn outgoing_script(
    r: Recipient,
    template: Seq<char>,
    placeholder: Option<Seq<char>>,
    service: Seq<char>,
) -> Seq<char> {
    script_text(rendered(template, placeholder, name_view(r.name)), r.number@, service)
}

fn name_str(name: &Option<String>) -> (r: Option<&str>)
    ensures
        opt_str_view(r) == name_view(*name),
{
    match name {
        Some(n) => Some(n.as_str()),
        None => None,
    }
}

/// One send per recipient, in the recipients' order: each carries the
/// recipient's name and number and the script that sends its rendered
/// message. No recipients means nothing to send.
pub fn prepare_sends(
    recipients: &Vec<Recipient>,
    template: &str,
    placeholder: Option<&str>,
    service: &str,
) -> (r: Vec<Outgoing>)
    ensures
        r@.len() == recipients@.len(),
        forall|i: int|
            0 <= i < r@.len() ==> {
                &&& name_view((#[trigger] r@[i]).name) == name_view(recipients@[i].name)
                &&& r@[i].number@ == recipients@[i].number@
                &&& r@[i].script@ == outgoing_script(
                    recipients@[i],
                    template@,
                    opt_str_view(placeholder),
                    service@,
                )
            },
{
    let mut out: Vec<Outgoing> = Vec::new();
    let mut i: usize = 0;
    while i < recipients.len()
        invariant
            i <= recipients@.len(),
            out@.len() == i,
            forall|k: int|
                0 <= k < i ==> {
                    &&& name_view((#[trigger] out@[k]).name) == name_view(recipients@[k].name)
                    &&& out@[k].number@ == recipients@[k].number@
                    &&& out@[k].script@ == outgoing_script(
                        recipients@[k],
                        template@,
                        opt_str_view(placeholder),
                        service@,
                    )
                },
        decreases recipients@.len() - i,
    {
        let r = &recipients[i];
        let name = name_str(&r.name);
        let message = render_message(template, placeholder, name);
        let script = automation_script(message.as_str(), r.number.as_str(), service);
        let owned_name = match name {
            Some(n) => Some(String::from_str(n)),
            None => None,
        };
        out.push(Outgoing { name: owned_name, number: r.number.clone(), script });
        i = i + 1;
    }
    out
}

} // verus!
