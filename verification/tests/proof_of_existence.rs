use ledger_runtime::proof_of_existence::{Call, Pallet};
use ledger_runtime::support::Dispatch;

#[test]
fn basic_proof_of_existence() {
    let mut poe = Pallet::new();

    let _ = poe.create_claim("alice".to_string(), "Hello World".to_string());
    assert_eq!(poe.get_claim(&"Hello World".to_string()), Some(&"alice".to_string()));
    assert_eq!(
        poe.create_claim("alice".to_string(), "Hello World".to_string()),
        Err("Claim already exists")
    );

    let res = poe.revoke_claim("bob".to_string(), "Hello World".to_string());
    assert_eq!(res, Err("You are not the owner of this claim"));

    let res = poe.create_claim("bob".to_string(), "Hello World".to_string());
    assert_eq!(res, Err("Claim already exists"));

    let res = poe.revoke_claim("alice".to_string(), "non-existent claim".to_string());
    assert_eq!(res, Err("No claim found for this content"));

    let res = poe.revoke_claim("alice".to_string(), "Hello World".to_string());
    assert_eq!(res, Ok(()));
    assert_eq!(poe.get_claim(&"Hello World".to_string()), None);
}

#[test]
fn unclaimed_content_has_no_owner() {
    let mut poe = Pallet::new();
    assert_eq!(poe.get_claim(&"doc1".to_string()), None);
    assert_eq!(poe.create_claim("alice".to_string(), "doc2".to_string()), Ok(()));
    assert_eq!(poe.get_claim(&"doc1".to_string()), None);
    assert_eq!(poe.get_claim(&"alice".to_string()), None);
}

#[test]
fn revoked_content_can_be_claimed_by_another() {
    let mut poe = Pallet::new();
    let doc = "doc1".to_string();
    assert_eq!(poe.create_claim("alice".to_string(), doc.clone()), Ok(()));
    assert_eq!(poe.revoke_claim("alice".to_string(), doc.clone()), Ok(()));
    assert_eq!(poe.get_claim(&doc), None);
    assert_eq!(poe.create_claim("bob".to_string(), doc.clone()), Ok(()));
    assert_eq!(poe.get_claim(&doc), Some(&"bob".to_string()));
    assert_eq!(
        poe.revoke_claim("alice".to_string(), doc.clone()),
        Err("You are not the owner of this claim")
    );
    assert_eq!(poe.get_claim(&doc), Some(&"bob".to_string()));
}

#[test]
fn failed_claim_keeps_the_first_owner() {
    let mut poe = Pallet::new();
    let doc = "doc1".to_string();
    assert_eq!(poe.create_claim("alice".to_string(), doc.clone()), Ok(()));
    assert_eq!(poe.create_claim("bob".to_string(), doc.clone()), Err("Claim already exists"));
    assert_eq!(poe.get_claim(&doc), Some(&"alice".to_string()));
}

#[test]
fn claims_on_several_contents_do_not_mix() {
    let mut poe = Pallet::new();
    assert_eq!(poe.create_claim("alice".to_string(), "b".to_string()), Ok(()));
    assert_eq!(poe.create_claim("bob".to_string(), "a".to_string()), Ok(()));
    assert_eq!(poe.create_claim("carol".to_string(), "c".to_string()), Ok(()));
    assert_eq!(poe.revoke_claim("bob".to_string(), "a".to_string()), Ok(()));
    assert_eq!(poe.get_claim(&"a".to_string()), None);
    assert_eq!(poe.get_claim(&"b".to_string()), Some(&"alice".to_string()));
    assert_eq!(poe.get_claim(&"c".to_string()), Some(&"carol".to_string()));
}

#[test]
fn dispatch_of_claim_calls() {
    let mut poe = Pallet::new();
    let doc = "doc1".to_string();
    let r = poe.dispatch("alice".to_string(), Call::CreateClaim { claim: doc.clone() });
    assert_eq!(r, Ok(()));
    assert_eq!(poe.get_claim(&doc), Some(&"alice".to_string()));
    let r = poe.dispatch("bob".to_string(), Call::RevokeClaim { claim: doc.clone() });
    assert_eq!(r, Err("You are not the owner of this claim"));
    let r = poe.dispatch("bob".to_string(), Call::RevokeClaim { claim: "doc2".to_string() });
    assert_eq!(r, Err("No claim found for this content"));
    let r = poe.dispatch("alice".to_string(), Call::RevokeClaim { claim: doc.clone() });
    assert_eq!(r, Ok(()));
    assert_eq!(poe.get_claim(&doc), None);
}
