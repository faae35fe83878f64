//! What the management interface decides about bindings: the address of a
//! binding in the repository and the status that answers a request. The
//! requests themselves are served by the owner of the repository.

use vstd::prelude::*;

verus! {

/// Format of the body of a request.
#[derive(Debug, Clone, Copy, PartialEq, Eq, Structural)]
pub enum ResourceType {
    Json,
    Yaml,
}

/// The format that a content type stands for, if it is one that bodies are
/// read in.
pub open spec fn spec_resource_type(content_type: Seq<char>) -> Option<ResourceType> {
    if content_type == "application/yaml"@ {
        Some(ResourceType::Yaml)
    } else if content_type == "application/json"@ {
        Some(ResourceType::Json)
    } else {
        None
    }
}

/// Reads the format of a body off its content type.
pub fn resource_type(content_type: &str) -> (format: Option<ResourceType>)
    ensures
        format == spec_resource_type(content_type@),
{
    let given = content_type.to_owned();
    if given == String::from_str("application/yaml") {
        Some(ResourceType::Yaml)
    } else if given == String::from_str("application/json") {
        Some(ResourceType::Json)
    } else {
        None
    }
}

/// Address of the binding `id`.
pub open spec fn spec_binding_url(id: Seq<char>) -> Seq<char> {
    "/binding/"@ + id
}

/// Address of the instance `instance` of the binding `id`.
pub open spec fn spec_servant_url(id: Seq<char>, instance: Seq<char>) -> Seq<char> {
    "/binding/"@ + id + "/"@ + instance
}

/// Address of the binding `id`.
pub fn binding_url(id: &str) -> (url: String)
    ensures
        url@ == spec_binding_url(id@),
{
    let mut url = String::from_str("/binding/");
    url.append(id);
    url
}

/// Address of the instance `instance` of the binding `id`.
pub fn servant_url(id: &str, instance: &str) -> (url: String)
    ensures
        url@ == spec_servant_url(id@, instance@),
{
    let mut url = String::from_str("/binding/");
    url.append(id);
    url.append("/");
    url.append(instance);
    url
}

/// Status that answers a request to publish or to link, which carries a
/// body: 201 where the format of the body is known, 500 where it is not.
pub fn created_status(format: Option<ResourceType>) -> (status: u16)
    ensures
        status == if format is Some {
            201u16
        } else {
            500u16
        },
{
    match format {
        Some(_) => 201,
        None => 500,
    }
}

/// Status that answers a lookup: 200 where something was found, 404 where
/// nothing was found or the lookup failed.
pub fn found_status(found: bool) -> (status: u16)
    ensures
        status == if found {
            200u16
        } else {
            404u16
        },
{
    if found {
        200
    } else {
        404
    }
}

} // verus!
