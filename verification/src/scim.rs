//! The records that a user directory exchanges about groups, roles and users.

use vstd::prelude::*;

verus! {
/// The mapping of an identity provider's group to roles.
#[derive(Debug, Clone)]
pub struct GroupMapping {
    pub id: String,
    pub group: String,
    pub role_ids: Vec<String>,
    pub sso_config_id: String,
    pub enabled: bool,
}

/// A group mapping as it is given out.
pub struct GroupMappingResponse {
    pub id: String,
    pub group: String,
    pub role_ids: Vec<String>,
    pub sso_config_id: String,
    pub enabled: bool,
}

/// The fields of a group mapping that a request changes; the others stay.
pub struct GroupMappingUpdateRequest {
    pub group: Option<String>,
    pub role_ids: Option<Vec<String>>,
    pub enabled: Option<bool>,
}

/// The roles that a new user gets.
#[derive(Clone, Debug)]
pub struct DefaultRoles {
    pub role_ids: Vec<String>,
}

/// A role of a group.
#[derive(Clone, Debug)]
pub struct ScimRole {
    pub id: String,
    pub key: String,
    pub name: String,
    pub description: String,
    pub is_default: bool,
}

/// A user of a group.
#[derive(Clone, Debug)]
pub struct ScimUser {
    pub id: String,
    pub name: String,
    pub email: String,
}

/// What a request gives to create a group.
pub struct GroupCreateParams {
    pub name: String,
    pub description: Option<String>,
    pub color: Option<String>,
    pub metadata: Option<String>,
}

/// The fields of a group that a request changes; the others stay.
pub struct GroupUpdateParams {
    pub name: Option<String>,
    pub description: Option<String>,
    pub color: Option<String>,
    pub metadata: Option<String>,
}

/// What a request gives to create a provisioning configuration.
pub struct SCIM2ConfigurationCreateRequest {
    pub source: String,
    pub connection_name: String,
    pub sync_to_user_management: bool,
}

/// The users that a request adds to a group.
pub struct AddUsersToGroupParams {
    pub user_ids: Vec<String>,
}

/// The users that a request removes from a group.
pub struct RemoveUsersFromGroupParams {
    pub user_ids: Vec<String>,
}
} // verus!
