use vstd::prelude::*;

verus! {

/// A graph over `N` vertices kept as an adjacency matrix: `arcs[i][j]` is the weight of the
/// arc from vertex `i` to vertex `j`, `0` for none.
#[derive(Debug)]
pub struct AMGraph<T, const N: usize> where T: Copy + Default {
    vexs: [T; N],
    arcs: [[usize; N]; N],
    arc_num: usize,
}

impl<T, const N: usize> AMGraph<T, N> where T: Copy + Default {
    /// The vertex values.
    pub closed spec fn vertices(&self) -> [T; N] {
        self.vexs
    }

    /// The adjacency matrix.
    pub closed spec fn matrix(&self) -> [[usize; N]; N] {
        self.arcs
    }

    /// The recorded number of arcs.
    pub closed spec fn arc_count(&self) -> usize {
        self.arc_num
    }

    /// A graph with the given vertices, adjacency matrix and number of arcs.
    pub fn new(vexs: [T; N], arcs: [[usize; N]; N], arc_num: usize) -> (r: Self)
        ensures
            r.vertices() == vexs,
            r.matrix() == arcs,
            r.arc_count() == arc_num,
    {
        Self { vexs, arcs, arc_num }
    }

    /// The vertex values.
    pub fn vexs_get(&self) -> (r: [T; N])
        ensures
            r == self.vertices(),
    {
        self.vexs
    }

    /// The adjacency matrix.
    pub fn arcs(&self) -> (r: [[usize; N]; N])
        ensures
            r == self.matrix(),
    {
        self.arcs
    }

    /// The recorded number of arcs.
    pub fn arc_num(&self) -> (r: usize)
        ensures
            r == self.arc_count(),
    {
        self.arc_num
    }
}

} // verus!
