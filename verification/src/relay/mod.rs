//! A dynamic DNS client that sends its updates to a relay server.
use vstd::prelude::*;
use vstd::string::*;

use crate::config::ClientConfig;
use crate::dyndns::{ClientData, DataError};
use crate::server::{MESSAGE_DOMAINS_FORBIDDEN, RequestData, ResponseMessage, STATUS_FORBIDDEN, domains_permitted, refusal};
use crate::text::{copy_texts, views};

verus! {

/// Dyndns client using the server mode as relay for updating records.
/// Will determine the public ip's and send them to the relay server.
pub struct Relay {
    endpoint: String,
    token: String,
    data: ClientData,
}

impl Relay {
    pub closed spec fn endpoint_view(&self) -> Seq<char> {
        self.endpoint@
    }

    pub closed spec fn token_view(&self) -> Seq<char> {
        self.token@
    }

    pub closed spec fn data_spec(&self) -> ClientData {
        self.data
    }

    /// Create a new Relay instance from the client config.
    pub fn from_config(config: ClientConfig) -> (r: Self)
        ensures
            r.endpoint_view() == config.endpoint@,
            r.token_view() == config.token@,
            r.data_spec().proxy_view() == config.proxy,
            r.data_spec().domains_view() == views(config.domains@),
            r.data_spec().ipv4_view().len() == 0,
            r.data_spec().ipv6_view().len() == 0,
            r.data_spec().wf(),
    {
        Relay {
            endpoint: config.endpoint,
            token: config.token,
            data: ClientData::new(config.proxy, config.domains),
        }
    }

    /// A relay with the given parts.
    pub fn new(endpoint: String, token: String, data: ClientData) -> (r: Self)
        ensures
            r.endpoint_view() == endpoint@,
            r.token_view() == token@,
            r.data_spec() == data,
    {
        Relay { endpoint, token, data }
    }

    /// The address of the relay server.
    pub fn endpoint(&self) -> (e: &str)
        ensures
            e@ == self.endpoint_view(),
    {
        self.endpoint.as_str()
    }

    /// The API token passed on to the server.
    pub fn token(&self) -> (t: &str)
        ensures
            t@ == self.token_view(),
    {
        self.token.as_str()
    }

    /// The state of the client.
    pub fn data(&self) -> (d: &ClientData)
        ensures
            *d == self.data_spec(),
    {
        &self.data
    }

    /// The state of the client, to change it.
    pub fn data_mut(&mut self) -> (d: &mut ClientData)
        ensures
            *d == old(self).data_spec(),
            final(self).data_spec() == *final(d),
            final(self).endpoint_view() == old(self).endpoint_view(),
            final(self).token_view() == old(self).token_view(),
    {
        &mut self.data
    }

    /// The request to send to the relay server: the token, the domains,
    /// the addresses and the proxy setting. Refused with the reason when the
    /// data lacks an address or a domain.
    pub fn update_payload(&self) -> (r: Result<RequestData, DataError>)
        ensures
            ({
                let d = self.data_spec();
                let no_ip = d.ipv4_view().len() == 0 && d.ipv6_view().len() == 0;
                if no_ip {
                    r matches Err(DataError::NoAddress)
                } else if d.domains_view().len() == 0 {
                    r matches Err(DataError::NoDomain)
                } else {
                    r matches Ok(p) && {
                        &&& p.token@ == self.token_view()
                        &&& views(p.domains@) == d.domains_view()
                        &&& p.ipv4@ == d.ipv4_view()
                        &&& p.ipv6@ == d.ipv6_view()
                        &&& p.proxy == d.proxy_view()
                    }
                }
            }),
    {
        self.data.check()?;
        Ok(
            RequestData {
                token: String::from_str(self.token.as_str()),
                domains: copy_texts(self.data.domain_list()),
                ipv4: String::from_str(self.data.ipv4()),
                ipv6: String::from_str(self.data.ipv6()),
                proxy: self.data.proxied(),
            },
        )
    }
}

/// The message of a refused relay answer.
pub open spec fn relay_failure_message(status: Seq<char>, msg: Seq<char>) -> Seq<char> {
    "Failed to update records, status: '"@ + status + "': "@ + msg
}

/// Judge the relay server's answer: it succeeded only when the HTTP status
/// is a success and the answer says so; otherwise the error text names the
/// status (as `status_text`) and the server's message.
pub fn judge_reply(status_success: bool, status_text: &str, reply: &ResponseMessage) -> (r: Result<
    (),
    String,
>)
    ensures
        r is Ok <==> (status_success && reply.success),
        r matches Err(m) ==> m@ == relay_failure_message(status_text@, reply.msg@),
{
    if !status_success || !reply.success {
        let mut m = String::from_str("Failed to update records, status: '");
        m.append(status_text);
        m.append("': ");
        m.append(reply.msg.as_str());
        return Err(m);
    }
    Ok(())
}


/// What a relay client sends passes every check of the relay server but its
/// whitelist: the relay only sends data with a valid address and a domain,
/// so the server refuses such a request only when a domain is not
/// whitelisted, with 403.
pub proof fn law_relayed_request_refused_only_by_whitelist(relay: Relay, whitelist: Seq<Seq<char>>)
    requires
        relay.data_spec().wf(),
        relay.data_spec().ipv4_view().len() != 0 || relay.data_spec().ipv6_view().len() != 0,
        relay.data_spec().domains_view().len() != 0,
    ensures
        refusal(
            whitelist,
            relay.data_spec().domains_view(),
            relay.data_spec().ipv4_view(),
            relay.data_spec().ipv6_view(),
        ) == if domains_permitted(whitelist, relay.data_spec().domains_view()) {
            None::<(u16, Seq<char>)>
        } else {
            Some((STATUS_FORBIDDEN, MESSAGE_DOMAINS_FORBIDDEN@))
        },
{
}

} // verus!
