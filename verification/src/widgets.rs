//! The state of the dot plot and of the input grid, and how they answer
//! their messages.
use vstd::prelude::*;
use crate::key::ZERO_KEY;
use crate::runs::{is_longest_run, max_duplicates, runs_fit_u32};

verus! {

/// Messages to the plots.
pub enum PlotMsg {
    /// The pointer hovers at a position.
    Hover(i32),
    /// The plot is asked to draw itself again.
    Update,
    /// Nothing happened.
    Idle,
}

/// Messages to the input grid.
pub enum InputMsg {
    /// Text was typed into the cell with this index.
    Input(String, u32),
    /// The input was confirmed.
    Enter,
    /// Nothing happened.
    Idle,
}

/// What a dot plot keeps of its (sorted) points: the height of its tallest
/// stack of dots, and the first and last point.
pub struct DotPlotState {
    pub most_num_vals: u32,
    pub range: (u64, u64),
}

impl DotPlotState {
    /// The state for a sorted list of points: the length of its longest run
    /// of equal points, and its first and last point (`+0.0` for no points).
    pub fn create(points: &Vec<u64>) -> (state: Self)
        requires
            runs_fit_u32(points@),
        ensures
            is_longest_run(points@, state.most_num_vals as int),
            state.range == (if points.len() == 0 {
                (ZERO_KEY, ZERO_KEY)
            } else {
                (points@[0], points@[points.len() - 1])
            }),
    {
        let most_num_vals = max_duplicates(points);
        let n = points.len();
        let range = if n == 0 {
            (ZERO_KEY, ZERO_KEY)
        } else {
            (points[0], points[n - 1])
        };
        DotPlotState { most_num_vals, range }
    }

    /// Answers a message: only `Update` asks for the plot to be drawn again;
    /// the state stays as it is.
    pub fn update(&mut self, msg: PlotMsg) -> (redraw: bool)
        ensures
            redraw == (msg is Update),
            final(self).most_num_vals == old(self).most_num_vals,
            final(self).range == old(self).range,
    {
        match msg {
            PlotMsg::Update => true,
            PlotMsg::Hover(_) => false,
            PlotMsg::Idle => false,
        }
    }

    /// The height of the canvas: room for the tallest stack of dots, each
    /// `dot_step` high, plus 30 for the number line, and at least
    /// `min_height`.
    pub fn canvas_height(&self, dot_step: u32, min_height: u32) -> (height: u32)
        requires
            dot_step * self.most_num_vals + 30 <= u32::MAX,
        ensures
            height == (if dot_step * self.most_num_vals + 30 >= min_height {
                dot_step * self.most_num_vals + 30
            } else {
                min_height as int
            }),
    {
        proof {
            assert(0 <= dot_step * self.most_num_vals) by (nonlinear_arith);
        }
        let stacked = dot_step * self.most_num_vals + 30;
        if stacked >= min_height {
            stacked
        } else {
            min_height
        }
    }
}

/// The state of the input grid: its cells, its size and its labels.
pub struct InputGrid {
    pub content: Vec<String>,
    pub width: u32,
    pub height: u32,
    pub xlabels: Vec<String>,
    pub ylabels: Vec<String>,
}

impl InputGrid {
    /// An empty two by two grid without labels.
    pub fn create() -> (grid: Self)
        ensures
            grid.content@.len() == 0,
            grid.width == 2,
            grid.height == 2,
            grid.xlabels@.len() == 0,
            grid.ylabels@.len() == 0,
    {
        InputGrid {
            content: Vec::new(),
            width: 2,
            height: 2,
            xlabels: Vec::new(),
            ylabels: Vec::new(),
        }
    }

    /// Answers a message: only `Enter` asks for the grid to be drawn again;
    /// the grid stays as it is.
    pub fn update(&mut self, msg: InputMsg) -> (redraw: bool)
        ensures
            redraw == (msg is Enter),
            final(self).content@ == old(self).content@,
            final(self).width == old(self).width,
            final(self).height == old(self).height,
            final(self).xlabels@ == old(self).xlabels@,
            final(self).ylabels@ == old(self).ylabels@,
    {
        match msg {
            InputMsg::Input(_, _) => false,
            InputMsg::Enter => true,
            InputMsg::Idle => false,
        }
    }
}

} // verus!
