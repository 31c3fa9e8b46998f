//! What a newly set up phone is told of the server.

use crate::forms::{field_or, FormFields};
use crate::models::ProvisioningSettings;
use crate::text::{trim, trimmed};
use vstd::prelude::*;

verus! {

/// The settings that a form gives.
pub fn update_provisioning_settings(form: &FormFields) -> (r: ProvisioningSettings)
    ensures
        r.server_url@ == trimmed(field_or(form@, "server_url"@, ""@)),
        r.tailscale_auth_key@ == trimmed(field_or(form@, "tailscale_auth_key"@, ""@)),
{
    ProvisioningSettings {
        server_url: trim(form.get_or("server_url", "").as_str()),
        tailscale_auth_key: trim(form.get_or("tailscale_auth_key", "").as_str()),
    }
}

} // verus!
