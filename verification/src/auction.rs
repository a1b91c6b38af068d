use crate::card::Color;
use crate::error::EngineError;
use vstd::prelude::*;

verus! {

/// Where the choice of trump stands.
#[derive(Clone, Copy, Debug, PartialEq, Eq, Structural)]
pub enum Auction {
    /// The seat is asked whether it takes the suit of the face-up card.
    AwaitingPhase1(usize),
    /// The seat is asked whether it names another suit.
    AwaitingPhase2(usize),
    /// The seat took, with the suit as trump.
    Concluded(usize, Color),
    /// All four seats passed twice: the cards are dealt again.
    Redeal,
}

/// What a seat may answer in the auction.
#[derive(Clone, Copy, Debug, PartialEq, Eq, Structural)]
pub enum Bid {
    /// Take the suit of the face-up card.
    Accept,
    /// Decline.
    Pass,
    /// Take, with the given suit as trump.
    Name(Color),
}

/// The seat to the left of `seat`.
pub open spec fn left_of(seat: usize) -> usize {
    if seat >= 3 {
        0
    } else {
        (seat + 1) as usize
    }
}

/// The seat to the left of `seat`.
pub fn seat_left_of(seat: usize) -> (s: usize)
    ensures
        s == left_of(seat),
        s < 4,
        seat < 4 ==> s == (seat + 1) % 4,
{
    if seat >= 3 {
        0
    } else {
        seat + 1
    }
}

impl Auction {
    /// The auction opens with the seat to the dealer's left.
    pub open spec fn opening(dealer: usize) -> Auction {
        Auction::AwaitingPhase1(left_of(dealer))
    }

    /// The seat that is asked, while the auction is open.
    pub open spec fn asked(self) -> Option<usize> {
        match self {
            Auction::AwaitingPhase1(s) => Some(s),
            Auction::AwaitingPhase2(s) => Some(s),
            _ => None,
        }
    }

    /// Every seat that the state names is a seat.
    pub open spec fn wf(self) -> bool {
        match self {
            Auction::AwaitingPhase1(s) => s < 4,
            Auction::AwaitingPhase2(s) => s < 4,
            Auction::Concluded(s, _) => s < 4,
            Auction::Redeal => true,
        }
    }

    /// The state that follows when `seat` answers `bid`, or why the answer
    /// is refused.
    ///
    /// Only the seat that is asked may answer. In the first phase it accepts
    /// the suit of the face-up card or passes; in the second it names any
    /// other suit or passes. The seats are asked clockwise and the dealer
    /// last: its pass opens the second phase, or ends the auction without a
    /// taker. Once the auction is over no bid is awaited.
    pub open spec fn after_bid(self, dealer: usize, candidate: Color, seat: usize, bid: Bid) -> Result<
        Auction,
        EngineError,
    > {
        match self {
            Auction::AwaitingPhase1(asked) => if seat != asked {
                Err(EngineError::IllegalBid)
            } else {
                match bid {
                    Bid::Accept => Ok(Auction::Concluded(seat, candidate)),
                    Bid::Pass => Ok(
                        if seat == dealer {
                            Auction::AwaitingPhase2(left_of(dealer))
                        } else {
                            Auction::AwaitingPhase1(left_of(seat))
                        },
                    ),
                    Bid::Name(_) => Err(EngineError::IllegalBid),
                }
            },
            Auction::AwaitingPhase2(asked) => if seat != asked {
                Err(EngineError::IllegalBid)
            } else {
                match bid {
                    Bid::Accept => Err(EngineError::IllegalBid),
                    Bid::Pass => Ok(
                        if seat == dealer {
                            Auction::Redeal
                        } else {
                            Auction::AwaitingPhase2(left_of(seat))
                        },
                    ),
                    Bid::Name(color) => if color == candidate {
                        Err(EngineError::IllegalBid)
                    } else {
                        Ok(Auction::Concluded(seat, color))
                    },
                }
            },
            Auction::Concluded(_, _) => Err(EngineError::OutOfTurn),
            Auction::Redeal => Err(EngineError::OutOfTurn),
        }
    }

    /// Opens the auction of a deal by `dealer`.
    pub fn open(dealer: usize) -> (a: Auction)
        ensures
            a == Auction::opening(dealer),
            a.wf(),
    {
        Auction::AwaitingPhase1(seat_left_of(dealer))
    }

    /// Applies the answer of a seat; see [`Auction::after_bid`].
    pub fn bid(self, dealer: usize, candidate: Color, seat: usize, bid: Bid) -> (r: Result<
        Auction,
        EngineError,
    >)
        ensures
            r == self.after_bid(dealer, candidate, seat, bid),
            self.wf() && r is Ok ==> r->Ok_0.wf(),
    {
        match self {
            Auction::AwaitingPhase1(asked) => {
                if seat != asked {
                    Err(EngineError::IllegalBid)
                } else {
                    match bid {
                        Bid::Accept => Ok(Auction::Concluded(seat, candidate)),
                        Bid::Pass => {
                            if seat == dealer {
                                Ok(Auction::AwaitingPhase2(seat_left_of(dealer)))
                            } else {
                                Ok(Auction::AwaitingPhase1(seat_left_of(seat)))
                            }
                        },
                        Bid::Name(_) => Err(EngineError::IllegalBid),
                    }
                }
            },
            Auction::AwaitingPhase2(asked) => {
                if seat != asked {
                    Err(EngineError::IllegalBid)
                } else {
                    match bid {
                        Bid::Accept => Err(EngineError::IllegalBid),
                        Bid::Pass => {
                            if seat == dealer {
                                Ok(Auction::Redeal)
                            } else {
                                Ok(Auction::AwaitingPhase2(seat_left_of(seat)))
                            }
                        },
                        Bid::Name(color) => {
                            if color == candidate {
                                Err(EngineError::IllegalBid)
                            } else {
                                Ok(Auction::Concluded(seat, color))
                            }
                        },
                    }
                }
            },
            Auction::Concluded(_, _) => Err(EngineError::OutOfTurn),
            Auction::Redeal => Err(EngineError::OutOfTurn),
        }
    }
}

} // verus!
