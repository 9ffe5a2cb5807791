//! Reports as texts with figures: quotients that are computed where the report is shown.

use crate::text::{decimal, decimal_text, signed_decimal, signed_text};
use crate::types::Ratio;
use vstd::prelude::*;
use vstd::string::*;

verus! {

/// A quotient to be shown, as it is or in percent, with a number of decimals.
#[derive(Clone, Copy, Debug, PartialEq, Eq, Structural)]
pub struct Figure {
    pub ratio: Ratio,
    pub percent: bool,
    pub decimals: u8,
}

/// A report: texts, each followed by a figure, and a text at the end.
pub struct Report {
    pub pieces: Vec<(String, Figure)>,
    pub tail: String,
}

/// What a report shows.
#[verifier::ext_equal]
pub struct ReportView {
    pub pieces: Seq<(Seq<char>, Figure)>,
    pub tail: Seq<char>,
}

impl View for Report {
    type V = ReportView;

    open spec fn view(&self) -> ReportView {
        ReportView {
            pieces: Seq::new(
                self.pieces@.len(),
                |i: int| (self.pieces@[i].0@, self.pieces@[i].1),
            ),
            tail: self.tail@,
        }
    }
}

/// A report without content.
pub open spec fn blank() -> ReportView {
    ReportView { pieces: Seq::empty(), tail: Seq::empty() }
}

impl ReportView {
    /// The report with a text behind it.
    pub open spec fn text(self, s: Seq<char>) -> ReportView {
        ReportView { tail: self.tail + s, ..self }
    }

    /// The report with a number behind it.
    pub open spec fn number(self, n: nat) -> ReportView {
        self.text(decimal(n))
    }

    /// The report with a number behind it that may be negative.
    pub open spec fn signed(self, n: int) -> ReportView {
        self.text(signed_decimal(n))
    }

    /// The report with a figure behind it.
    pub open spec fn figure(self, f: Figure) -> ReportView {
        ReportView { pieces: self.pieces.push((self.tail, f)), tail: Seq::empty() }
    }

    /// The report with a quotient behind it.
    pub open spec fn quotient(self, ratio: Ratio, decimals: u8) -> ReportView {
        self.figure(Figure { ratio, percent: false, decimals })
    }

    /// The report with a quotient in percent behind it.
    pub open spec fn percent(self, ratio: Ratio, decimals: u8) -> ReportView {
        self.figure(Figure { ratio, percent: true, decimals })
    }
}

/// A share of a whole.
pub open spec fn share(part: nat, whole: nat) -> Ratio {
    Ratio { num: part as i128, den: whole as u128 }
}

impl Report {
    /// A report without content.
    pub fn new() -> (report: Self)
        ensures
            report@ == blank(),
    {
        let report = Report { pieces: Vec::new(), tail: String::new() };
        assert(report@ =~= blank());
        report
    }

    /// Adds a text.
    pub fn text(&mut self, s: &str)
        ensures
            final(self)@ == old(self)@.text(s@),
    {
        self.tail.append(s);
        assert(self@ =~= old(self)@.text(s@));
    }

    /// Adds a number.
    pub fn number(&mut self, n: u128)
        ensures
            final(self)@ == old(self)@.number(n as nat),
    {
        let s = decimal_text(n);
        self.text(s.as_str());
    }

    /// Adds a number that may be negative.
    pub fn signed(&mut self, n: i64)
        ensures
            final(self)@ == old(self)@.signed(n as int),
    {
        let s = signed_text(n as i128);
        self.text(s.as_str());
    }

    /// Adds a figure.
    fn figure(&mut self, f: Figure)
        ensures
            final(self)@ == old(self)@.figure(f),
    {
        let text = self.tail.clone();
        self.pieces.push((text, f));
        self.tail = String::new();
        assert(self@ =~= old(self)@.figure(f));
    }

    /// Adds a quotient.
    pub fn quotient(&mut self, ratio: Ratio, decimals: u8)
        ensures
            final(self)@ == old(self)@.quotient(ratio, decimals),
    {
        self.figure(Figure { ratio, percent: false, decimals });
    }

    /// Adds a quotient in percent.
    pub fn percent(&mut self, ratio: Ratio, decimals: u8)
        ensures
            final(self)@ == old(self)@.percent(ratio, decimals),
    {
        self.figure(Figure { ratio, percent: true, decimals });
    }
}

/// A share of a whole.
pub fn share_of(part: usize, whole: u128) -> (ratio: Ratio)
    ensures
        ratio == share(part as nat, whole as nat),
{
    Ratio { num: part as i128, den: whole }
}

} // verus!
