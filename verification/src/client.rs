//! The client a descriptor set is generated onto.
//!
//! `ApiClient::generate` is the constructor path: it validates the whole
//! descriptor set once, binds the constant scope and the supplied
//! credential, and yields a client whose operations can be planned
//! cheaply ever after.  Validation failures are fatal here and never
//! surface at call time.

use vstd::prelude::*;
use crate::assemble::{assemble, body_fits, spec_assemble, Body, RequestPlan};
use crate::descriptor::{AuthStrategy, EndpointDescriptor, GeneratedOperation,
    GeneratedOperationModel, GenerationError};
use crate::generate::{generate, lemma_generated_ops_wf, names_view, spec_generate, wf_operation};
use crate::template::env_view;

verus! {

/// A generated client: the credential it was built with and the
/// operations the generator emitted, one per descriptor, in order.
pub struct ApiClient {
    /// The credential applied to every call.
    pub auth: AuthStrategy,
    /// The bound operations, in descriptor order.
    pub operations: Vec<GeneratedOperation>,
}

/// Every operation a client holds is well formed: what generation
/// guarantees and what call planning relies on.
pub open spec fn client_wf(c: ApiClient) -> bool {
    forall|i: int|
        0 <= i < c.operations.len() ==> wf_operation(#[trigger] c.operations@[i]@)
}

impl ApiClient {
    /// Validates the descriptor set against the constant scope and wires
    /// the supplied credential into a new client.  The first ill-formed
    /// descriptor blocks generation of the whole set: no client, and no
    /// partial operation set, is produced.
    pub fn generate(
        descriptors: &Vec<EndpointDescriptor>,
        constants: &Vec<(Vec<u8>, Vec<u8>)>,
        auth: AuthStrategy,
    ) -> (r: Result<ApiClient, GenerationError>)
        ensures
            match r {
                Result::Ok(c) => {
                    &&& spec_generate(
                        descriptors@.map_values(|d: EndpointDescriptor| d@),
                        env_view(constants@),
                    ) matches Ok(ops) && ops == c.operations@.map_values(
                        |o: GeneratedOperation| o@,
                    )
                    &&& c.auth == auth
                    &&& client_wf(c)
                },
                Result::Err(e) => spec_generate(
                    descriptors@.map_values(|d: EndpointDescriptor| d@),
                    env_view(constants@),
                ) == Err::<Seq<GeneratedOperationModel>, _>(e@),
            },
    {
        let ghost dsv = descriptors@.map_values(|d: EndpointDescriptor| d@);
        let ghost cv = env_view(constants@);
        match generate(descriptors, constants) {
            Result::Ok(operations) => {
                let c = ApiClient { auth, operations };
                proof {
                    lemma_generated_ops_wf(dsv, cv, Seq::empty());
                    assert forall|i: int| 0 <= i < c.operations.len() implies wf_operation(
                        #[trigger] c.operations@[i]@,
                    ) by {
                        let ops = crate::generate::spec_generate_from(dsv, cv, Seq::empty());
                        assert(wf_operation(ops->Ok_0[i]));
                        assert(c.operations@.map_values(|o: GeneratedOperation| o@)[i]
                            == c.operations@[i]@);
                    }
                }
                Ok(c)
            },
            Result::Err(e) => Err(e),
        }
    }

    /// Plans one call of the operation at `index`: runs the assembly
    /// pipeline against the client's credential and the caller's
    /// arguments.  Total: a call on a generated client never fails for a
    /// generation-time reason.
    pub fn plan(&self, index: usize, body: &Body, args: &Vec<Vec<u8>>) -> (plan: RequestPlan)
        requires
            client_wf(*self),
            index < self.operations.len(),
            args@.len() == self.operations@[index as int]@.params.len(),
            body_fits(self.operations@[index as int]@, body@),
        ensures
            plan@ == spec_assemble(
                self.operations@[index as int]@,
                self.auth@,
                names_view(args@),
                body@,
            ),
    {
        assemble(&self.operations[index], &self.auth, args, body)
    }
}

} // verus!
