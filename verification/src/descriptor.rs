//! Endpoint descriptors and the closed variant sets they are built from.
//!
//! A descriptor is immutable metadata for one operation: verb, URL
//! template, header templates, body kind, response kind and the ordered
//! extra-parameter list.  The generator validates descriptors and emits
//! one bound operation per descriptor; every call then runs against the
//! emitted operation alone.

use vstd::prelude::*;
use crate::template::{SegModel, Template};

verus! {

/// The request verb.
#[derive(Clone, Copy, PartialEq, Eq, Structural, Debug)]
pub enum Verb {
    /// GET.
    Get,
    /// POST.
    Post,
    /// PUT.
    Put,
    /// PATCH.
    Patch,
    /// DELETE.
    Delete,
    /// HEAD.
    Head,
}

/// How a request payload is encoded.
#[derive(Clone, Copy, PartialEq, Eq, Structural, Debug)]
pub enum BodyKind {
    /// No payload.
    NoBody,
    /// The body record as a JSON object.
    Json,
    /// The body record as a URL-encoded form.
    Form,
    /// A pre-built multipart payload, attached as it stands.
    Multipart,
}

/// How a response body is consumed.
#[derive(Clone, Copy, PartialEq, Eq, Structural, Debug)]
pub enum ResponseKind {
    /// Only the status code.
    StatusCode,
    /// The textual body.
    Text,
    /// The raw body bytes.
    Bytes,
    /// The body parsed as a structured record.
    DecodedObject,
}

/// The credential a client applies to every call.
#[derive(Debug)]
pub enum AuthStrategy {
    /// No credential.
    NoAuth,
    /// Basic credentials.
    Basic {
        /// The user name.
        username: Vec<u8>,
        /// The password.
        password: Vec<u8>,
    },
    /// A bearer token.
    Bearer {
        /// The token.
        token: Vec<u8>,
    },
    /// One named header.
    Header {
        /// The header name.
        name: Vec<u8>,
        /// The header value.
        value: Vec<u8>,
    },
}

/// The mathematical model of an [`AuthStrategy`].
#[verifier::ext_equal]
pub enum AuthStrategyModel {
    /// No credential.
    NoAuth,
    /// Basic credentials.
    Basic {
        /// The user name.
        username: Seq<u8>,
        /// The password.
        password: Seq<u8>,
    },
    /// A bearer token.
    Bearer {
        /// The token.
        token: Seq<u8>,
    },
    /// One named header.
    Header {
        /// The header name.
        name: Seq<u8>,
        /// The header value.
        value: Seq<u8>,
    },
}

impl View for AuthStrategy {
    type V = AuthStrategyModel;

    open spec fn view(&self) -> AuthStrategyModel {
        match self {
            AuthStrategy::NoAuth => AuthStrategyModel::NoAuth,
            AuthStrategy::Basic { username, password } => AuthStrategyModel::Basic {
                username: username@,
                password: password@,
            },
            AuthStrategy::Bearer { token } => AuthStrategyModel::Bearer { token: token@ },
            AuthStrategy::Header { name, value } => AuthStrategyModel::Header {
                name: name@,
                value: value@,
            },
        }
    }
}

/// One header template of a descriptor: a name and a templated value.
#[derive(Debug, Clone)]
pub struct HeaderTemplate {
    /// The header name.
    pub name: Vec<u8>,
    /// The header value's template source.
    pub value: Vec<u8>,
}

/// The mathematical model of a [`HeaderTemplate`].
#[verifier::ext_equal]
pub struct HeaderTemplateModel {
    /// The header name.
    pub name: Seq<u8>,
    /// The header value's template source.
    pub value: Seq<u8>,
}

impl View for HeaderTemplate {
    type V = HeaderTemplateModel;

    open spec fn view(&self) -> HeaderTemplateModel {
        HeaderTemplateModel { name: self.name@, value: self.value@ }
    }
}

/// Immutable metadata for one operation, authored once.
pub struct EndpointDescriptor {
    /// The operation's identifier, unique in one generated set.
    pub name: Vec<u8>,
    /// The request verb.
    pub verb: Verb,
    /// The URL template source.
    pub url_template: Vec<u8>,
    /// The header templates, in declaration order.
    pub headers: Vec<HeaderTemplate>,
    /// How the request payload is encoded.
    pub body_kind: BodyKind,
    /// How the response body is consumed.
    pub response_kind: ResponseKind,
    /// The names of the extra call parameters, in declaration order.
    pub params: Vec<Vec<u8>>,
    /// The declared field names of the body record, present exactly when
    /// the operation takes a record body (JSON or form kind).
    pub body_fields: Option<Vec<Vec<u8>>>,
}

/// The mathematical model of an [`EndpointDescriptor`].
#[verifier::ext_equal]
pub struct EndpointDescriptorModel {
    /// The operation's identifier.
    pub name: Seq<u8>,
    /// The request verb.
    pub verb: Verb,
    /// The URL template source.
    pub url_template: Seq<u8>,
    /// The header templates.
    pub headers: Seq<HeaderTemplateModel>,
    /// How the request payload is encoded.
    pub body_kind: BodyKind,
    /// How the response body is consumed.
    pub response_kind: ResponseKind,
    /// The names of the extra call parameters.
    pub params: Seq<Seq<u8>>,
    /// The declared body field names, where a record body is taken.
    pub body_fields: Option<Seq<Seq<u8>>>,
}

impl View for EndpointDescriptor {
    type V = EndpointDescriptorModel;

    open spec fn view(&self) -> EndpointDescriptorModel {
        EndpointDescriptorModel {
            name: self.name@,
            verb: self.verb,
            url_template: self.url_template@,
            headers: self.headers@.map_values(|h: HeaderTemplate| h@),
            body_kind: self.body_kind,
            response_kind: self.response_kind,
            params: self.params@.map_values(|p: Vec<u8>| p@),
            body_fields: match self.body_fields {
                Option::Some(fs) => Some(fs@.map_values(|p: Vec<u8>| p@)),
                Option::None => None,
            },
        }
    }
}

/// One compiled header of a generated operation.
#[derive(Debug, Clone, PartialEq, Eq)]
pub struct CompiledHeader {
    /// The header name.
    pub name: Vec<u8>,
    /// The header value's parsed template.
    pub value: Template,
}

/// The mathematical model of a [`CompiledHeader`].
#[verifier::ext_equal]
pub struct CompiledHeaderModel {
    /// The header name.
    pub name: Seq<u8>,
    /// The header value's parsed template.
    pub value: Seq<SegModel>,
}

impl View for CompiledHeader {
    type V = CompiledHeaderModel;

    open spec fn view(&self) -> CompiledHeaderModel {
        CompiledHeaderModel { name: self.name@, value: self.value@ }
    }
}

/// One validated, bound operation: what every call of it runs against.
#[derive(Debug, Clone, PartialEq, Eq)]
pub struct GeneratedOperation {
    /// The operation's identifier.
    pub name: Vec<u8>,
    /// The request verb.
    pub verb: Verb,
    /// The parsed URL template.
    pub url: Template,
    /// The compiled header templates, in declaration order.
    pub headers: Vec<CompiledHeader>,
    /// How the request payload is encoded.
    pub body_kind: BodyKind,
    /// How the response body is consumed.
    pub response_kind: ResponseKind,
    /// The names of the extra call parameters, in declaration order.
    pub params: Vec<Vec<u8>>,
    /// The declared body field names; empty where no record body is taken.
    pub body_fields: Vec<Vec<u8>>,
    /// The constants the operation was bound to at generation time.
    pub constants: Vec<(Vec<u8>, Vec<u8>)>,
}

/// The mathematical model of a [`GeneratedOperation`].
#[verifier::ext_equal]
pub struct GeneratedOperationModel {
    /// The operation's identifier.
    pub name: Seq<u8>,
    /// The request verb.
    pub verb: Verb,
    /// The parsed URL template.
    pub url: Seq<SegModel>,
    /// The compiled header templates.
    pub headers: Seq<CompiledHeaderModel>,
    /// How the request payload is encoded.
    pub body_kind: BodyKind,
    /// How the response body is consumed.
    pub response_kind: ResponseKind,
    /// The names of the extra call parameters.
    pub params: Seq<Seq<u8>>,
    /// The declared body field names; empty where no record body is taken.
    pub body_fields: Seq<Seq<u8>>,
    /// The constants the operation was bound to at generation time.
    pub constants: Seq<(Seq<u8>, Seq<u8>)>,
}

impl View for GeneratedOperation {
    type V = GeneratedOperationModel;

    open spec fn view(&self) -> GeneratedOperationModel {
        GeneratedOperationModel {
            name: self.name@,
            verb: self.verb,
            url: self.url@,
            headers: self.headers@.map_values(|h: CompiledHeader| h@),
            body_kind: self.body_kind,
            response_kind: self.response_kind,
            params: self.params@.map_values(|p: Vec<u8>| p@),
            body_fields: self.body_fields@.map_values(|p: Vec<u8>| p@),
            constants: crate::template::env_view(self.constants@),
        }
    }
}

/// An ill-formed descriptor, found at generation time: generation of the
/// whole set is blocked, no operation is emitted.
#[derive(Debug, PartialEq, Eq)]
pub enum GenerationError {
    /// A template of the named operation breaks the template grammar.
    MalformedTemplate {
        /// The operation whose template is ill-formed.
        operation: Vec<u8>,
    },
    /// A placeholder of the named operation resolves to no constant,
    /// parameter or body field in scope.
    UnresolvedPlaceholder {
        /// The operation holding the placeholder.
        operation: Vec<u8>,
        /// The unresolved placeholder's name.
        placeholder: Vec<u8>,
    },
    /// The declared body parameter does not match the body kind: a JSON or
    /// form body takes exactly one record parameter, the other kinds none.
    BodyKindMismatch {
        /// The mismatched operation.
        operation: Vec<u8>,
    },
    /// Two operations of one set share an identifier.
    DuplicateName {
        /// The repeated identifier.
        name: Vec<u8>,
    },
}

/// The mathematical model of a [`GenerationError`].
#[verifier::ext_equal]
pub enum GenerationErrorModel {
    /// A template breaks the template grammar.
    MalformedTemplate {
        /// The operation whose template is ill-formed.
        operation: Seq<u8>,
    },
    /// A placeholder resolves to nothing in scope.
    UnresolvedPlaceholder {
        /// The operation holding the placeholder.
        operation: Seq<u8>,
        /// The unresolved placeholder's name.
        placeholder: Seq<u8>,
    },
    /// The declared body parameter does not match the body kind.
    BodyKindMismatch {
        /// The mismatched operation.
        operation: Seq<u8>,
    },
    /// Two operations of one set share an identifier.
    DuplicateName {
        /// The repeated identifier.
        name: Seq<u8>,
    },
}

impl View for GenerationError {
    type V = GenerationErrorModel;

    open spec fn view(&self) -> GenerationErrorModel {
        match self {
            GenerationError::MalformedTemplate { operation } => {
                GenerationErrorModel::MalformedTemplate { operation: operation@ }
            },
            GenerationError::UnresolvedPlaceholder { operation, placeholder } => {
                GenerationErrorModel::UnresolvedPlaceholder {
                    operation: operation@,
                    placeholder: placeholder@,
                }
            },
            GenerationError::BodyKindMismatch { operation } => {
                GenerationErrorModel::BodyKindMismatch { operation: operation@ }
            },
            GenerationError::DuplicateName { name } => GenerationErrorModel::DuplicateName {
                name: name@,
            },
        }
    }
}

} // verus!
