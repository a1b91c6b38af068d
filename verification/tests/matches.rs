use belote::card::{Card, Color, Rank};
use belote::error::EngineError;
use belote::game::{DecisionKind, Game, Response, Step, MAXIMUM_POINTS};
use belote::player::{Player, Team};

fn game(target: i32, seed: u64) -> Game {
    let a = Team::new(vec![Player::new("Speudal"), Player::new("Ardu")]);
    let b = Team::new(vec![Player::new("Progress"), Player::new("32cls")]);
    Game::new((a, b), target, seed)
}

fn answer(game: &mut Game, seat: usize, kind: DecisionKind, take: bool) {
    let response = match kind {
        DecisionKind::Phase1 => {
            if take {
                Response::Accept
            } else {
                Response::Pass
            }
        }
        DecisionKind::Phase2 => Response::Pass,
        DecisionKind::Play => Response::Play(game.legal_moves()[0]),
    };
    assert_eq!(game.submit(seat, response), Ok(()));
}

#[test]
fn a_new_match_has_no_round() {
    let g = game(MAXIMUM_POINTS, 1);
    assert_eq!(g.maximum_points, 1000);
    assert_eq!(g.scores(), (0, 0));
    assert_eq!(g.dealer, 0);
    assert!(g.round.is_none());
    assert!(g.rounds.is_empty());
    assert_eq!(g.winner, None);
    assert_eq!(g.trump(), None);
    assert_eq!(g.taker(), None);
    assert_eq!(g.candidate(), None);
    assert!(g.hand(0).is_none());
    assert!(g.tricks().is_none());
    assert!(g.legal_moves().is_empty());
}

#[test]
fn a_new_match_starts_from_nothing() {
    let mut a = Team::new(vec![Player::new("a"), Player::new("b")]);
    a.points = 400;
    let b = Team::new(vec![Player::new("c"), Player::new("d")]);
    let g = Game::new((a, b), 1000, 0);
    assert_eq!(g.scores(), (0, 0));
}

#[test]
fn the_seats_alternate_between_the_teams() {
    let names: Vec<String> = game(1000, 1).get_players().into_iter().map(|p| p.name).collect();
    assert_eq!(names, vec!["Speudal", "Progress", "Ardu", "32cls"]);
}

#[test]
fn a_step_before_the_start_is_out_of_turn() {
    let mut g = game(1000, 1);
    assert_eq!(g.step(), Err(EngineError::OutOfTurn));
    assert_eq!(g.submit(1, Response::Pass), Err(EngineError::OutOfTurn));
}

#[test]
fn the_start_deals_the_first_round() {
    let mut g = game(1000, 1);
    assert_eq!(g.start(), Ok(()));
    let round = g.round.as_ref().unwrap();
    assert_eq!(round.current, 1);
    assert_eq!(round.dealer, 0);
    assert_eq!(round.players[1].name, "Progress");
    assert_eq!(g.hand(2).unwrap().len(), 5);
    assert!(g.candidate().is_some());
    assert_eq!(g.seed, 2);
    assert_eq!(g.start(), Err(EngineError::OutOfTurn));
}

#[test]
fn the_same_seed_opens_the_same_match() {
    let mut a = game(1000, 77);
    let mut b = game(500, 77);
    a.start().unwrap();
    b.start().unwrap();
    for s in 0..4 {
        assert_eq!(a.hand(s), b.hand(s));
    }
    assert_eq!(a.candidate(), b.candidate());
}

#[test]
fn an_answer_before_it_is_asked_is_out_of_turn() {
    let mut g = game(1000, 1);
    g.start().unwrap();
    assert_eq!(g.submit(1, Response::Pass), Err(EngineError::OutOfTurn));
    assert_eq!(g.step(), Ok(Step::NeedDecision(1, DecisionKind::Phase1)));
    assert_eq!(g.step(), Ok(Step::NeedDecision(1, DecisionKind::Phase1)));
    assert_eq!(g.submit(1, Response::Pass), Ok(()));
    assert_eq!(g.submit(2, Response::Pass), Err(EngineError::OutOfTurn));
    assert_eq!(g.step(), Ok(Step::NeedDecision(2, DecisionKind::Phase1)));
}

#[test]
fn a_refused_answer_is_still_owed() {
    let mut g = game(1000, 1);
    g.start().unwrap();
    g.step().unwrap();
    assert_eq!(g.submit(3, Response::Accept), Err(EngineError::IllegalBid));
    assert_eq!(g.submit(1, Response::Name(Color::Spades)), Err(EngineError::IllegalBid));
    assert_eq!(
        g.submit(1, Response::Play(Card::new(Color::Spades, Rank::Seven))),
        Err(EngineError::OutOfTurn)
    );
    assert!(g.asked);
    assert_eq!(g.submit(1, Response::Accept), Ok(()));
    assert_eq!(g.taker(), Some(1));
    assert_eq!(g.trump(), g.round.as_ref().unwrap().trump_color);
    assert_eq!(g.step(), Ok(Step::NeedDecision(1, DecisionKind::Play)));
    assert_eq!(g.submit(1, Response::Pass), Err(EngineError::OutOfTurn));
    let legal = g.legal_moves();
    let foreign = g.hand(2).unwrap()[0];
    assert_eq!(
        g.submit(1, Response::Play(foreign)),
        Err(EngineError::IllegalPlay { card: foreign, legal })
    );
    assert!(g.asked);
}

#[test]
fn redeal() {
    let mut g = game(1000, 9);
    g.start().unwrap();
    let first_deal: Vec<Card> = g.hand(0).unwrap().clone();
    for phase in [DecisionKind::Phase1, DecisionKind::Phase2] {
        for seat in [1usize, 2, 3, 0] {
            assert_eq!(g.step(), Ok(Step::NeedDecision(seat, phase)));
            assert_eq!(g.submit(seat, Response::Pass), Ok(()));
        }
    }
    match g.step() {
        Ok(Step::RoundEnded(summary)) => {
            assert!(summary.redeal);
            assert_eq!(summary.index, 1);
            assert_eq!(summary.dealer, 0);
            assert_eq!(summary.taker, None);
            assert_eq!(summary.trump, None);
            assert_eq!(summary.points, (0, 0));
        }
        other => panic!("{:?}", other),
    }
    assert_eq!(g.dealer, 1);
    assert_eq!(g.scores(), (0, 0));
    assert!(g.rounds.is_empty());
    let round = g.round.as_ref().unwrap();
    assert_eq!(round.current, 1);
    assert_eq!(round.dealer, 1);
    assert_eq!(round.deck.len(), 11);
    assert_eq!(g.hand(0).unwrap().len(), 5);
    assert_ne!(*g.hand(0).unwrap(), first_deal);
    assert_eq!(g.step(), Ok(Step::NeedDecision(2, DecisionKind::Phase1)));
}

#[test]
fn going_set_updates_the_match_score() {
    for seed in 0..200u64 {
        let mut g = game(1000, seed);
        g.start().unwrap();
        loop {
            match g.step().unwrap() {
                Step::NeedDecision(seat, kind) => answer(&mut g, seat, kind, true),
                Step::RoundEnded(summary) => {
                    let taker_team = summary.taker.unwrap() % 2;
                    let (taken, defended) = if taker_team == 0 {
                        (summary.points.0, summary.points.1)
                    } else {
                        (summary.points.1, summary.points.0)
                    };
                    if taken == 0 && defended == 162 {
                        assert_eq!(g.scores(), summary.points);
                        assert_eq!(g.rounds.len(), 1);
                        assert_eq!(g.dealer, 1);
                        return;
                    }
                    break;
                }
                Step::MatchEnded(_, _) => panic!("over after one round"),
            }
        }
    }
    panic!("no seed sets the taker");
}

#[test]
fn a_match_runs_to_its_target() {
    let mut g = game(300, 4);
    g.start().unwrap();
    let mut rounds = 0;
    let mut totals = (0, 0);
    let winner;
    loop {
        match g.step().unwrap() {
            Step::NeedDecision(seat, kind) => answer(&mut g, seat, kind, true),
            Step::RoundEnded(summary) => {
                rounds += 1;
                assert_eq!(summary.index, rounds);
                assert_eq!(summary.dealer, ((rounds - 1) % 4) as usize);
                let total = summary.points.0 + summary.points.1;
                assert!(total == 162 || total == 250);
                totals = (totals.0 + summary.points.0, totals.1 + summary.points.1);
                assert_eq!(g.scores(), totals);
                assert_eq!(g.rounds.len(), rounds as usize);
            }
            Step::MatchEnded(team, scores) => {
                winner = team;
                assert_eq!(scores, totals);
                break;
            }
        }
    }
    assert!(totals.0 >= 300 || totals.1 >= 300);
    assert!(rounds >= 2);
    assert_eq!(winner, if totals.0 > totals.1 { 0 } else { 1 });
    assert_eq!(g.winner, Some(winner));
    assert!(g.round.is_none());
    assert_eq!(g.step(), Ok(Step::MatchEnded(winner, totals)));
    assert_eq!(g.submit(0, Response::Pass), Err(EngineError::OutOfTurn));
    assert_eq!(g.start(), Err(EngineError::OutOfTurn));
}

fn distinct(cards: &[Card]) -> bool {
    let mut seen = [false; 32];
    for card in cards {
        if seen[card.get_index()] {
            return false;
        }
        seen[card.get_index()] = true;
    }
    true
}

#[test]
fn every_round_of_a_match_starts_with_the_whole_pack() {
    let mut g = game(400, 21);
    g.start().unwrap();
    let mut deals = 0;
    let mut asked = 0;
    loop {
        match g.step().unwrap() {
            Step::NeedDecision(seat, kind) => {
                let round = g.round.as_ref().unwrap();
                if kind == DecisionKind::Phase1 && seat == (round.dealer + 1) % 4 {
                    let mut dealt: Vec<Card> = Vec::new();
                    for p in round.players.iter() {
                        assert_eq!(p.hand.len(), 5);
                        dealt.extend(p.hand.iter().copied());
                    }
                    dealt.push(round.candidate.unwrap());
                    assert!(distinct(&dealt));
                    assert_eq!(dealt.len() + round.deck.len(), 32);
                    deals += 1;
                }
                asked += 1;
                answer(&mut g, seat, kind, asked % 3 != 0);
            }
            Step::RoundEnded(_) => {}
            Step::MatchEnded(_, _) => break,
        }
    }
    assert!(deals >= g.rounds.len());
    for round in g.rounds.iter() {
        let mut all: Vec<Card> = Vec::new();
        for t in round.tricks.iter() {
            all.extend(t.cards.iter().copied());
        }
        assert!(belote::deck::Deck::from_cards(all).is_complete());
    }
}

#[test]
fn a_faulted_engine_refuses() {
    let mut g = game(1000, 1);
    g.faulted = true;
    assert_eq!(g.start(), Err(EngineError::EngineFault));
    assert_eq!(g.step(), Err(EngineError::EngineFault));
    assert_eq!(g.submit(1, Response::Pass), Err(EngineError::EngineFault));
    assert!(g.round.is_none());
}

#[test]
fn a_target_already_met_still_takes_a_round() {
    let mut g = game(0, 3);
    g.start().unwrap();
    loop {
        match g.step().unwrap() {
            Step::NeedDecision(seat, kind) => answer(&mut g, seat, kind, true),
            Step::RoundEnded(_) => {}
            Step::MatchEnded(team, scores) => {
                assert_eq!(g.rounds.len(), 1);
                assert!(scores.0 + scores.1 == 162 || scores.0 + scores.1 == 250);
                if scores.0 != scores.1 {
                    assert_eq!(team, if scores.0 > scores.1 { 0 } else { 1 });
                }
                break;
            }
        }
    }
}
