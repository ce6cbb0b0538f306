use proposals::identity::Identity;
use proposals::proposal::Choice;
use proposals::proposal::CreateProposal;
use proposals::proposal::Proposal;
use proposals::proposal::VoteError;
use proposals::service::ProposalService;

fn ident(byte: u8) -> Identity {
    Identity::new(vec![byte]).unwrap()
}

fn create(
    service: &mut ProposalService,
    description: &str,
    is_active: bool,
    owner: &Identity,
) -> Proposal {
    service
        .create_proposal(
            CreateProposal { description: description.as_bytes().to_vec(), is_active },
            owner.clone(),
        )
        .unwrap()
}

#[test]
fn scenario_budget_vote_and_close() {
    let mut service = ProposalService::new();
    let a = ident(1);
    let p = create(&mut service, "Adopt budget", true, &a);
    assert_eq!(p.id, 1);
    assert_eq!(p.approve, 0);
    assert_eq!(p.reject, 0);
    assert_eq!(p.pass, 0);
    assert!(p.is_active);
    assert!(p.voted.is_empty());
    assert!(p.owner.same_as(&a));
    assert_eq!(p.description, b"Adopt budget".to_vec());

    let b = ident(2);
    assert_eq!(service.vote(1, Choice::Approve, b.clone()), Ok(()));
    let after = service.get_proposal(1).unwrap();
    assert_eq!(after.approve, 1);
    assert_eq!(after.voted.len(), 1);
    assert!(after.voted[0].same_as(&b));

    assert_eq!(service.vote(1, Choice::Reject, b.clone()), Err(VoteError::AlreadyVoted));

    let c = ident(3);
    assert_eq!(service.end_proposal(1, c), Err(VoteError::AccessRejected));

    assert_eq!(service.end_proposal(1, a), Ok(()));
    assert!(!service.get_proposal(1).unwrap().is_active);

    let d = ident(4);
    assert_eq!(service.vote(1, Choice::Pass, d), Err(VoteError::ProposalIsNotActive));
}

#[test]
fn created_ids_are_distinct_and_increasing() {
    let mut service = ProposalService::new();
    let a = ident(1);
    let first = create(&mut service, "one", true, &a);
    let second = create(&mut service, "two", false, &a);
    let third = create(&mut service, "three", true, &a);
    assert_eq!(first.id, 1);
    assert_eq!(second.id, 2);
    assert_eq!(third.id, 3);
}

#[test]
fn get_absent_proposal_is_none() {
    let mut service = ProposalService::new();
    assert!(service.get_proposal(1).is_none());
    let a = ident(1);
    create(&mut service, "here", true, &a);
    assert!(service.get_proposal(1).is_some());
    assert!(service.get_proposal(2).is_none());
}

#[test]
fn second_vote_changes_nothing() {
    let mut service = ProposalService::new();
    let a = ident(1);
    let b = ident(2);
    create(&mut service, "law", true, &a);
    assert_eq!(service.vote(1, Choice::Reject, b.clone()), Ok(()));
    let before = service.get_proposal(1).unwrap();
    assert_eq!(service.vote(1, Choice::Approve, b.clone()), Err(VoteError::AlreadyVoted));
    let after = service.get_proposal(1).unwrap();
    assert_eq!(after.approve, before.approve);
    assert_eq!(after.reject, before.reject);
    assert_eq!(after.pass, before.pass);
    assert_eq!(after.voted.len(), before.voted.len());
}

#[test]
fn inactive_from_birth_never_takes_votes() {
    let mut service = ProposalService::new();
    let a = ident(1);
    create(&mut service, "stillborn", false, &a);
    let b = ident(2);
    assert_eq!(service.vote(1, Choice::Approve, b.clone()), Err(VoteError::ProposalIsNotActive));
    let p = service.get_proposal(1).unwrap();
    assert_eq!(p.approve, 0);
    assert_eq!(p.reject, 0);
    assert_eq!(p.pass, 0);
    assert!(p.voted.is_empty());
}

#[test]
fn vote_on_missing_proposal() {
    let mut service = ProposalService::new();
    assert_eq!(service.vote(7, Choice::Pass, ident(1)), Err(VoteError::NoSuchProposal));
}

#[test]
fn end_missing_proposal() {
    let mut service = ProposalService::new();
    assert_eq!(service.end_proposal(7, ident(1)), Err(VoteError::NoSuchProposal));
}

#[test]
fn closing_twice_succeeds_and_stays_closed() {
    let mut service = ProposalService::new();
    let a = ident(1);
    create(&mut service, "short lived", true, &a);
    assert_eq!(service.end_proposal(1, a.clone()), Ok(()));
    assert!(!service.get_proposal(1).unwrap().is_active);
    assert_eq!(service.end_proposal(1, a), Ok(()));
    assert!(!service.get_proposal(1).unwrap().is_active);
}

#[test]
fn non_owner_cannot_close() {
    let mut service = ProposalService::new();
    let a = ident(1);
    create(&mut service, "guarded", true, &a);
    assert_eq!(service.end_proposal(1, ident(9)), Err(VoteError::AccessRejected));
    assert!(service.get_proposal(1).unwrap().is_active);
}

#[test]
fn tally_matches_voters_after_each_operation() {
    let mut service = ProposalService::new();
    let a = ident(1);
    create(&mut service, "tally", true, &a);
    let voters = [2u8, 3, 4, 5, 6];
    let choices = [Choice::Approve, Choice::Reject, Choice::Pass, Choice::Approve, Choice::Approve];
    for (v, c) in voters.iter().zip(choices.iter()) {
        assert_eq!(service.vote(1, *c, ident(*v)), Ok(()));
        let p = service.get_proposal(1).unwrap();
        assert_eq!((p.approve + p.reject + p.pass) as usize, p.voted.len());
    }
    let p = service.get_proposal(1).unwrap();
    assert_eq!(p.approve, 3);
    assert_eq!(p.reject, 1);
    assert_eq!(p.pass, 1);
    assert_eq!(p.voted.len(), 5);
}

#[test]
fn owner_may_vote_once_like_anyone() {
    let mut service = ProposalService::new();
    let a = ident(1);
    create(&mut service, "self vote", true, &a);
    assert_eq!(service.vote(1, Choice::Approve, a.clone()), Ok(()));
    assert_eq!(service.vote(1, Choice::Approve, a), Err(VoteError::AlreadyVoted));
}

#[test]
fn oversized_description_is_refused() {
    let mut service = ProposalService::new();
    let a = ident(1);
    let long = vec![b'x'; 5001];
    let r = service.create_proposal(CreateProposal { description: long, is_active: true }, a);
    assert!(r.is_none());
    assert!(service.get_proposal(1).is_none());
}

#[test]
fn vote_that_overflows_the_record_is_an_update_error() {
    let mut service = ProposalService::new();
    let a = ident(1);
    // 30 bytes of overhead + 4969-byte description + 1-byte owner: exactly 5000.
    let description = vec![b'x'; 4969];
    let p = service
        .create_proposal(CreateProposal { description, is_active: true }, a)
        .unwrap();
    assert_eq!(p.id, 1);
    let r = service.vote(1, Choice::Approve, ident(2));
    assert!(matches!(r, Err(VoteError::UpdateError(_))));
    let unchanged = service.get_proposal(1).unwrap();
    assert_eq!(unchanged.approve, 0);
    assert!(unchanged.voted.is_empty());
}

#[test]
fn record_round_trips_through_stored_bytes() {
    let p = Proposal {
        id: 42,
        description: b"round trip".to_vec(),
        approve: 2,
        reject: 1,
        pass: 0,
        is_active: true,
        voted: vec![ident(5), ident(6), ident(7)],
        owner: ident(9),
    };
    let bytes = p.to_bytes().unwrap();
    let q = Proposal::from_bytes(&bytes).unwrap();
    assert_eq!(q.id, 42);
    assert_eq!(q.description, b"round trip".to_vec());
    assert_eq!(q.approve, 2);
    assert_eq!(q.reject, 1);
    assert_eq!(q.pass, 0);
    assert!(q.is_active);
    assert_eq!(q.voted.len(), 3);
    assert!(q.voted[0].same_as(&ident(5)));
    assert!(q.voted[2].same_as(&ident(7)));
    assert!(q.owner.same_as(&ident(9)));
}

#[test]
fn stored_bytes_reject_garbage() {
    assert!(Proposal::from_bytes(&vec![]).is_none());
    assert!(Proposal::from_bytes(&vec![0u8; 10]).is_none());
    let p = Proposal {
        id: 1,
        description: vec![],
        approve: 0,
        reject: 0,
        pass: 0,
        is_active: false,
        voted: vec![],
        owner: ident(1),
    };
    let mut bytes = p.to_bytes().unwrap();
    bytes.push(0);
    assert!(Proposal::from_bytes(&bytes).is_none());
}

#[test]
fn identity_rules() {
    assert!(Identity::new(vec![]).is_none());
    assert!(Identity::new(vec![0u8; 256]).is_none());
    let long = Identity::new(vec![0u8; 255]).unwrap();
    assert!(long.same_as(&Identity::new(vec![0u8; 255]).unwrap()));
    assert!(!ident(1).same_as(&ident(2)));
    assert!(!ident(1).same_as(&long));
    assert_eq!(ident(3).bytes(), &vec![3u8]);
}

#[test]
fn opened_service_runs_the_same_lifecycle() {
    // On this host the default memory is a fresh in-process one, so an
    // opened service starts empty, like a new one.
    let mut service = ProposalService::open();
    let a = ident(1);
    let p = create(&mut service, "persisted", true, &a);
    assert_eq!(service.vote(p.id, Choice::Approve, ident(2)), Ok(()));
    let stored = service.get_proposal(p.id).unwrap();
    assert_eq!(stored.approve, 1);
    assert_eq!(service.end_proposal(p.id, a), Ok(()));
    assert!(!service.get_proposal(p.id).unwrap().is_active);
}
