//! Looking up the collections of whichever council the settings name.

use vstd::prelude::*;

use crate::bins::bromley::{self, takes_attempts, takes_pauses};
use crate::bins::hackney::{
    self, BinResponse, CollectionResponse, PropertyResponse, SearchResponse, WorkflowResponse,
};
use crate::bins::lookup::LookupError;
use crate::bins::{
    council, council_by_key, dates_ok, key_of, BinSettings, Council, Property, UnsupportedCouncil,
};
use crate::cache::{Cache, Reason};
use crate::date::Date;
use crate::text::text_of;
use crate::transport::{takes_any, takes_any_two};

verus! {

/// Why there are no collections.
#[derive(Debug)]
pub enum CouncilError<E> {
    /// The collections of the council cannot be looked up.
    Unsupported(UnsupportedCouncil),
    /// The lookup failed.
    Lookup(LookupError<E>),
}

impl<E> CouncilError<E> {
    /// The message for the errors that arise here; nothing for those from
    /// outside, which have their own.
    pub open spec fn text(self) -> Option<Seq<char>> {
        match self {
            CouncilError::Unsupported(e) => Some(e.text()),
            CouncilError::Lookup(e) => e.text(),
        }
    }

    /// The message for the person who runs the program, for errors that arise
    /// here.
    pub fn message(&self) -> (r: Option<String>)
        ensures
            text_of(r) == self.text(),
    {
        match self {
            CouncilError::Unsupported(e) => Some(e.message()),
            CouncilError::Lookup(e) => e.message(),
        }
    }
}

/// What a lookup at Bromley comes to.
pub open spec fn by_bromley<E>(
    given: Result<Property, LookupError<E>>,
    r: Result<(Property, Vec<(String, E)>), CouncilError<E>>,
) -> bool {
    match given {
        Ok(p) => r matches Ok((q, failures)) && q == p && failures@.len() == 0,
        Err(e) => r == Err::<(Property, Vec<(String, E)>), CouncilError<E>>(
            CouncilError::Lookup(e),
        ),
    }
}

/// What a lookup at Hackney comes to.
pub open spec fn by_hackney<E>(
    given: Result<(Property, Vec<(String, E)>), LookupError<E>>,
    r: Result<(Property, Vec<(String, E)>), CouncilError<E>>,
) -> bool {
    match given {
        Ok(found) => r == Ok::<(Property, Vec<(String, E)>), CouncilError<E>>(found),
        Err(e) => r == Err::<(Property, Vec<(String, E)>), CouncilError<E>>(
            CouncilError::Lookup(e),
        ),
    }
}

/// The property of the settings with its next collections, and the containers that
/// could not be looked up. The council of the settings says where to ask; one that
/// is not known is refused, and nothing is asked for.
pub fn collections<
    E: Reason,
    F: Fn(&str, &str) -> Result<String, E>,
    V: Fn(&str, usize) -> Result<String, E>,
    Z: Fn(usize, u64),
    P: Fn(&str, &str) -> Result<String, E>,
    G: Fn(&str) -> Result<String, E>,
    S: Fn(&str) -> Result<SearchResponse, E>,
    Q: Fn(&str) -> Result<PropertyResponse, E>,
    B: Fn(&str) -> Result<BinResponse, E>,
    C: Fn(&str) -> Result<CollectionResponse, E>,
    W: Fn(&str) -> Result<WorkflowResponse, E>,
>(
    cfg: &BinSettings,
    address: &str,
    today: Date,
    cache: &mut Option<Cache>,
    post_form: &F,
    browse: &V,
    wait: &Z,
    post_json: &P,
    get: &G,
    read_search: &S,
    read_property: &Q,
    read_bin: &B,
    read_collection: &C,
    read_workflow: &W,
) -> (r: Result<(Property, Vec<(String, E)>), CouncilError<E>>)
    requires
        today.wf(),
        takes_any_two(*post_form),
        takes_attempts(*browse),
        takes_pauses(*wait),
        takes_any_two(*post_json),
        takes_any(*get),
        takes_any(*read_search),
        takes_any(*read_property),
        takes_any(*read_bin),
        takes_any(*read_collection),
        takes_any(*read_workflow),
    ensures
        r matches Ok((p, failures)) ==> dates_ok(p.collections@),
        match council_by_key(key_of(cfg.council@)) {
            None => *final(cache) == *old(cache) && (r matches Err(CouncilError::Unsupported(e))
                && e.council@ == cfg.council@),
            Some(Council::Bromley) => exists|given: Result<Property, LookupError<E>>|
                bromley::collections_found(
                    *old(cache),
                    *final(cache),
                    *cfg,
                    address@,
                    today,
                    *post_form,
                    *browse,
                    *wait,
                    given,
                ) && #[trigger] by_bromley(given, r),
            Some(Council::Hackney) => exists|
                given: Result<(Property, Vec<(String, E)>), LookupError<E>>,
            |
                hackney::collections_found(
                    *old(cache),
                    *final(cache),
                    *cfg,
                    address@,
                    today,
                    *post_json,
                    *get,
                    *read_search,
                    *read_property,
                    *read_bin,
                    *read_collection,
                    *read_workflow,
                    given,
                ) && #[trigger] by_hackney(given, r),
        },
{
    match council(cfg) {
        Err(e) => Err(CouncilError::Unsupported(e)),
        Ok(Council::Bromley) => {
            let given: Result<Property, LookupError<E>> = bromley::collections(
                cfg,
                address,
                today,
                cache,
                post_form,
                browse,
                wait,
            );
            let ghost came = given;
            let r: Result<(Property, Vec<(String, E)>), CouncilError<E>> = match given {
                Ok(p) => Ok((p, Vec::new())),
                Err(e) => Err(CouncilError::Lookup(e)),
            };
            assert(by_bromley(came, r));
            r
        },
        Ok(Council::Hackney) => {
            let given: Result<(Property, Vec<(String, E)>), LookupError<E>> = hackney::collections(
                cfg,
                address,
                today,
                cache,
                post_json,
                get,
                read_search,
                read_property,
                read_bin,
                read_collection,
                read_workflow,
            );
            let ghost came = given;
            let r: Result<(Property, Vec<(String, E)>), CouncilError<E>> = match given {
                Ok(found) => Ok(found),
                Err(e) => Err(CouncilError::Lookup(e)),
            };
            assert(by_hackney(came, r));
            r
        },
    }
}

/// What a council gives is handed on as it is, and so is its failure.
pub proof fn law_councils_are_handed_on<E>(
    bromley: Result<Property, LookupError<E>>,
    hackney: Result<(Property, Vec<(String, E)>), LookupError<E>>,
    r: Result<(Property, Vec<(String, E)>), CouncilError<E>>,
)
    ensures
        by_bromley(bromley, r) ==> (bromley is Ok <==> r is Ok) && (r is Ok ==> (r->Ok_0).0
            == bromley->Ok_0 && (r->Ok_0).1@.len() == 0) && (r is Err ==> r->Err_0
            == CouncilError::Lookup(bromley->Err_0)),
        by_hackney(hackney, r) ==> (hackney is Ok <==> r is Ok) && (r is Ok ==> r->Ok_0
            == hackney->Ok_0) && (r is Err ==> r->Err_0 == CouncilError::Lookup(hackney->Err_0)),
{
}

} // verus!
