//! The text that tells how a run goes.

use vstd::prelude::*;
use vstd::string::StringExecFns;

verus! {

/// What the text tells.
#[derive(Clone, Copy, Debug)]
pub struct RunInfo {
    pub paused: bool,
    /// Whether discharge is shown as a heat map.
    pub heatmap: bool,
    /// Frames per second, where they are known.
    pub fps: Option<u32>,
    /// The number of the frame.
    pub frame: u64,
    pub plants: usize,
    pub cycles_per_frame: usize,
}

pub open spec fn digit(d: int) -> char {
    if d == 0 {
        '0'
    } else if d == 1 {
        '1'
    } else if d == 2 {
        '2'
    } else if d == 3 {
        '3'
    } else if d == 4 {
        '4'
    } else if d == 5 {
        '5'
    } else if d == 6 {
        '6'
    } else if d == 7 {
        '7'
    } else if d == 8 {
        '8'
    } else {
        '9'
    }
}

/// A number in decimal digits.
pub open spec fn decimal(n: nat) -> Seq<char>
    decreases n,
{
    if n < 10 {
        seq![digit(n as int)]
    } else {
        decimal(n / 10).push(digit((n % 10) as int))
    }
}

/// The number that decimal digits stand for.
pub open spec fn read_decimal(text: Seq<char>) -> int
    decreases text.len(),
{
    if text.len() == 0 {
        0
    } else {
        10 * read_decimal(text.drop_last()) + (text.last() as int - '0' as int)
    }
}

/// Decimal digits stand for the number that they were made from.
pub proof fn decimals_read_back(n: nat)
    ensures
        read_decimal(decimal(n)) == n,
    decreases n,
{
    if n >= 10 {
        decimals_read_back(n / 10);
        assert(decimal(n).drop_last() =~= decimal(n / 10));
    } else {
        assert(decimal(n).drop_last() =~= Seq::empty());
        assert(read_decimal(decimal(n).drop_last()) == 0);
    }
}

fn digit_text(d: u64) -> (r: &'static str)
    requires
        d < 10,
    ensures
        r@ == seq![digit(d as int)],
{
    proof {
        reveal_strlit("0");
        reveal_strlit("1");
        reveal_strlit("2");
        reveal_strlit("3");
        reveal_strlit("4");
        reveal_strlit("5");
        reveal_strlit("6");
        reveal_strlit("7");
        reveal_strlit("8");
        reveal_strlit("9");
    }
    let text: &'static str = match d {
        0 => "0",
        1 => "1",
        2 => "2",
        3 => "3",
        4 => "4",
        5 => "5",
        6 => "6",
        7 => "7",
        8 => "8",
        _ => "9",
    };
    assert(text@ =~= seq![digit(d as int)]);
    text
}

fn append_decimal(text: &mut String, n: u64)
    ensures
        final(text)@ == old(text)@ + decimal(n as nat),
    decreases n,
{
    if n >= 10 {
        append_decimal(text, n / 10);
    }
    text.append(digit_text(n % 10));
    assert(text@ =~= old(text)@ + decimal(n as nat));
}

/// The number of the frame that follows.
pub fn next_frame(frame: u64) -> (r: u64)
    requires
        frame < u64::MAX,
    ensures
        r == frame + 1,
{
    frame + 1
}

/// How many drops have fallen by the end of a frame.
pub fn total_particles(frame: u64, cycles_per_frame: usize) -> (r: u64)
    requires
        frame * cycles_per_frame <= u64::MAX,
    ensures
        r == frame * cycles_per_frame,
{
    frame * cycles_per_frame as u64
}

pub open spec fn status_of(paused: bool) -> Seq<char> {
    if paused {
        "⏸ PAUSED"@
    } else {
        "▶ RUNNING"@
    }
}

pub open spec fn heatmap_of(shown: bool) -> Seq<char> {
    if shown {
        "ON [M]"@
    } else {
        "OFF [M]"@
    }
}

impl RunInfo {
    /// The whole text, given that for the entrainment.
    pub open spec fn shown(self, entrainment: Seq<char>) -> Seq<char> {
        let fps: nat = match self.fps {
            Some(fps) => fps as nat,
            None => 0,
        };
        "Hydraulic Erosion\n─────────────────\nStatus:      "@ + status_of(self.paused)
            + "\nHeatmap:     "@ + heatmap_of(self.heatmap) + "\nFPS:         "@ + decimal(fps)
            + "\nFrame:       "@ + decimal(self.frame as nat) + "\nParticles:   "@ + decimal(
            (self.frame * self.cycles_per_frame) as nat,
        ) + "\nPlants:      "@ + decimal(self.plants as nat)
            + "\n── Params ──\nCycles/frame: "@ + decimal(self.cycles_per_frame as nat)
            + "  [O/P]\nEntrainment:  "@ + entrainment + "  [K/L]"@
    }

    /// The whole text, given that for the entrainment.
    pub fn text(&self, entrainment: &str) -> (r: String)
        requires
            self.frame * self.cycles_per_frame <= u64::MAX,
        ensures
            r@ == self.shown(entrainment@),
    {
        let mut text: String = String::new();
        text.append("Hydraulic Erosion\n─────────────────\nStatus:      ");
        assert(text@ =~= "Hydraulic Erosion\n─────────────────\nStatus:      "@);
        text.append(
            if self.paused {
                "⏸ PAUSED"
            } else {
                "▶ RUNNING"
            },
        );
        text.append("\nHeatmap:     ");
        text.append(
            if self.heatmap {
                "ON [M]"
            } else {
                "OFF [M]"
            },
        );
        text.append("\nFPS:         ");
        append_decimal(
            &mut text,
            match self.fps {
                Some(fps) => fps as u64,
                None => 0,
            },
        );
        text.append("\nFrame:       ");
        append_decimal(&mut text, self.frame);
        text.append("\nParticles:   ");
        append_decimal(&mut text, total_particles(self.frame, self.cycles_per_frame));
        text.append("\nPlants:      ");
        append_decimal(&mut text, self.plants as u64);
        text.append("\n── Params ──\nCycles/frame: ");
        append_decimal(&mut text, self.cycles_per_frame as u64);
        text.append("  [O/P]\nEntrainment:  ");
        text.append(entrainment);
        text.append("  [K/L]");
        text
    }
}

} // verus!
