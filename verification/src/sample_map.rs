//! The progressive accumulation buffer: for each pixel the sum of the colour
//! samples taken so far and their number.
use crate::fixed::Fixed;
use crate::random::random_choice;
use crate::vec3simd::{v3_add, v3_constrain, v3_zero, Rgb, Vec3Simd, V3};
use vstd::prelude::*;

verus! {

/// What a pixel has accumulated.
pub struct Cell {
    pub colour: V3,
    pub samples: nat,
}

/// The mathematical content of a sample map. Cells are held row by row.
pub struct SampleMapModel {
    pub width: nat,
    pub height: nat,
    pub max_samples: nat,
    pub cells: Seq<Cell>,
}

impl SampleMapModel {
    /// The map has a cell for each pixel and no cell above the limit.
    pub open spec fn wf(self) -> bool {
        &&& self.cells.len() == self.width * self.height
        &&& forall|i: int| 0 <= i < self.cells.len() ==> (#[trigger] self.cells[i]).samples <= self.max_samples
    }

    /// The map of `width` by `height` pixels without samples.
    pub open spec fn fresh(max_samples: nat, width: nat, height: nat) -> SampleMapModel {
        SampleMapModel {
            width,
            height,
            max_samples,
            cells: Seq::new(width * height, |i: int| Cell { colour: v3_zero(), samples: 0 }),
        }
    }

    /// The cell at place `i` exists and has no sample.
    pub open spec fn is_unsampled(self, i: int) -> bool {
        0 <= i < self.cells.len() && self.cells[i].samples == 0
    }

    /// Byte `k` of the display image: the pixels row by row, three bytes each
    /// in the order red, green, blue.
    pub open spec fn pixel_byte(self, k: int) -> u8 {
        let cell = self.cells[k / 3];
        let shown = v3_constrain(cell.colour, cell.samples as int);
        if k % 3 == 0 {
            shown.r
        } else if k % 3 == 1 {
            shown.g
        } else {
            shown.b
        }
    }

    /// The display image, three bytes for each pixel.
    pub open spec fn pixel_data(self) -> Seq<u8> {
        Seq::new(3 * self.cells.len(), |k: int| self.pixel_byte(k))
    }

    /// The place of pixel `(x, y)` among the cells.
    pub open spec fn index(self, x: int, y: int) -> int {
        x + self.width * y
    }

    /// Pixel `(x, y)` lies inside the map.
    pub open spec fn in_bounds(self, x: int, y: int) -> bool {
        0 <= x < self.width && 0 <= y < self.height
    }

    /// What pixel `(x, y)` has accumulated.
    pub open spec fn cell(self, x: int, y: int) -> Cell {
        self.cells[self.index(x, y)]
    }

    /// Pixel `(x, y)` has taken as many samples as the map allows.
    pub open spec fn is_saturated(self, x: int, y: int) -> bool {
        self.cell(x, y).samples >= self.max_samples
    }

    /// The map after one more sample for pixel `(x, y)`. A saturated pixel
    /// takes no sample. The first sample of a pixel replaces its colour sum,
    /// later ones are added to it.
    pub open spec fn add_sample(self, x: int, y: int, value: V3) -> SampleMapModel {
        let old_cell = self.cell(x, y);
        if old_cell.samples >= self.max_samples {
            self
        } else {
            let colour = if old_cell.samples == 0 {
                value
            } else {
                v3_add(old_cell.colour, value)
            };
            SampleMapModel {
                cells: self.cells.update(
                    self.index(x, y),
                    Cell { colour, samples: old_cell.samples + 1 },
                ),
                ..self
            }
        }
    }

    /// The map after the samples `values` were offered to pixel `(x, y)`, one
    /// after another.
    pub open spec fn add_samples(self, x: int, y: int, values: Seq<V3>) -> SampleMapModel
        decreases values.len(),
    {
        if values.len() == 0 {
            self
        } else {
            self.add_samples(x, y, values.drop_last()).add_sample(x, y, values.last())
        }
    }

    /// The map after every sample count was reset. Colour sums stay as they
    /// were; the next sample of each pixel replaces its sum.
    pub open spec fn invalidate(self) -> SampleMapModel {
        SampleMapModel {
            cells: Seq::new(
                self.cells.len(),
                |i: int| Cell { colour: self.cells[i].colour, samples: 0 },
            ),
            ..self
        }
    }

    /// The display colour of pixel `(x, y)`.
    pub open spec fn normalized_colour(self, x: int, y: int) -> Rgb {
        v3_constrain(self.cell(x, y).colour, self.cell(x, y).samples as int)
    }
}

/// A pixel's place among the cells lies inside the map.
pub proof fn lemma_index_in_bounds(width: nat, height: nat, x: int, y: int)
    requires
        0 <= x < width,
        0 <= y < height,
    ensures
        0 <= x + width * y < width * height,
{
    assert(width * y <= width * (height - 1)) by (nonlinear_arith)
        requires
            0 <= y <= height - 1,
            width >= 0,
    ;
    assert(width * (height - 1) == width * height - width) by (nonlinear_arith);
    assert(width * y >= 0) by (nonlinear_arith)
        requires
            0 <= y,
            width >= 0,
    ;
}

/// Taking a sample keeps a map well formed and its size and limit unchanged.
pub proof fn lemma_add_sample_wf(m: SampleMapModel, x: int, y: int, value: V3)
    requires
        m.wf(),
        m.in_bounds(x, y),
    ensures
        m.add_sample(x, y, value).wf(),
        m.add_sample(x, y, value).width == m.width,
        m.add_sample(x, y, value).height == m.height,
        m.add_sample(x, y, value).max_samples == m.max_samples,
{
    lemma_index_in_bounds(m.width, m.height, x, y);
}

/// Offering `values.len()` samples to a pixel raises its count by that many,
/// but never above the limit of the map.
pub proof fn lemma_samples_counted(m: SampleMapModel, x: int, y: int, values: Seq<V3>)
    requires
        m.wf(),
        m.in_bounds(x, y),
    ensures
        m.add_samples(x, y, values).wf(),
        m.add_samples(x, y, values).width == m.width,
        m.add_samples(x, y, values).height == m.height,
        m.add_samples(x, y, values).max_samples == m.max_samples,
        m.add_samples(x, y, values).cell(x, y).samples == if m.cell(x, y).samples + values.len()
            <= m.max_samples {
            m.cell(x, y).samples + values.len()
        } else {
            m.max_samples
        },
    decreases values.len(),
{
    lemma_index_in_bounds(m.width, m.height, x, y);
    if values.len() > 0 {
        lemma_samples_counted(m, x, y, values.drop_last());
        lemma_add_sample_wf(m.add_samples(x, y, values.drop_last()), x, y, values.last());
    }
}

/// Once a pixel was offered as many samples as the map allows, it is
/// saturated, its count is the limit, and a further sample leaves the map as
/// it is.
pub proof fn lemma_saturation(m: SampleMapModel, x: int, y: int, values: Seq<V3>, further: V3)
    requires
        m.wf(),
        m.in_bounds(x, y),
        values.len() == m.max_samples,
    ensures
        m.add_samples(x, y, values).is_saturated(x, y),
        m.add_samples(x, y, values).cell(x, y).samples == m.max_samples,
        m.add_samples(x, y, values).add_sample(x, y, further) == m.add_samples(x, y, values),
{
    lemma_samples_counted(m, x, y, values);
}

/// After an invalidation of a map that allows at least one sample, no pixel
/// is saturated, and the next sample of a pixel becomes its colour sum.
pub proof fn lemma_invalidation(m: SampleMapModel, x: int, y: int, value: V3)
    requires
        m.wf(),
        m.in_bounds(x, y),
        m.max_samples > 0,
    ensures
        m.invalidate().wf(),
        !m.invalidate().is_saturated(x, y),
        m.invalidate().add_sample(x, y, value).cell(x, y) == (Cell { colour: value, samples: 1 }),
{
    lemma_index_in_bounds(m.width, m.height, x, y);
}

/// The column and row of the cell at place `index`, for a map that is `width`
/// pixels wide.
pub open spec fn coords_of(width: nat, index: int) -> (int, int) {
    (index % (width as int), index / (width as int))
}

/// A cell's column and row lie inside the map and lead back to its place.
pub proof fn lemma_coords_in_bounds(width: nat, height: nat, index: int)
    requires
        0 <= index < width * height,
    ensures
        width > 0,
        0 <= coords_of(width, index).0 < width,
        0 <= coords_of(width, index).1 < height,
        coords_of(width, index).0 + width * coords_of(width, index).1 == index,
{
    let w = width as int;
    assert(w > 0) by (nonlinear_arith)
        requires
            0 <= index < w * height,
            w >= 0,
    ;
    assert(index == w * (index / w) + index % w && 0 <= index % w < w) by (nonlinear_arith)
        requires
            w > 0,
    ;
    assert(0 <= index / w < height) by (nonlinear_arith)
        requires
            w > 0,
            0 <= index < w * height,
            index == w * (index / w) + index % w,
            0 <= index % w < w,
    ;
}

/// The accumulation buffer of an image of `width` by `height` pixels, each of
/// which takes at most `max_samples` samples.
pub struct SampleMap {
    colours: Vec<Vec3Simd>,
    samples: Vec<u32>,
    width: usize,
    height: usize,
    max_samples: u32,
}

impl View for SampleMap {
    type V = SampleMapModel;

    closed spec fn view(&self) -> SampleMapModel {
        SampleMapModel {
            width: self.width as nat,
            height: self.height as nat,
            max_samples: self.max_samples as nat,
            cells: Seq::new(
                self.samples@.len(),
                |i: int| Cell { colour: self.colours@[i]@, samples: self.samples@[i] as nat },
            ),
        }
    }
}

impl SampleMap {
    /// The map holds a colour sum and a sample count for each pixel, and no
    /// count above the limit. Every map that `new` made is well formed, and
    /// every operation keeps it so.
    pub closed spec fn wf(&self) -> bool {
        &&& self.width * self.height <= usize::MAX
        &&& self.colours@.len() == self.width * self.height
        &&& self.samples@.len() == self.width * self.height
        &&& forall|i: int| 0 <= i < self.samples@.len() ==> (#[trigger] self.samples@[i]) <= self.max_samples
    }

    /// A map of `width` by `height` pixels without samples.
    pub fn new(max_samples: u32, width: usize, height: usize) -> (r: Self)
        requires
            width * height <= usize::MAX,
        ensures
            r.wf(),
            r@ == SampleMapModel::fresh(max_samples as nat, width as nat, height as nat),
    {
        let n: usize = width * height;
        let zero = Vec3Simd::new(Fixed::zero(), Fixed::zero(), Fixed::zero());
        let mut colours: Vec<Vec3Simd> = Vec::new();
        let mut samples: Vec<u32> = Vec::new();
        let mut i: usize = 0;
        while i < n
            invariant
                i <= n,
                colours@.len() == i,
                samples@.len() == i,
                zero@ == v3_zero(),
                forall|k: int| 0 <= k < i ==> (#[trigger] samples@[k]) == 0,
                forall|k: int| 0 <= k < i ==> (#[trigger] colours@[k])@ == v3_zero(),
            decreases n - i,
        {
            colours.push(zero);
            samples.push(0);
            i = i + 1;
        }
        let map = SampleMap { colours, samples, width, height, max_samples };
        proof {
            assert(map@.cells =~= SampleMapModel::fresh(
                max_samples as nat,
                width as nat,
                height as nat,
            ).cells);
        }
        map
    }

    /// A well-formed map has a well-formed content.
    pub proof fn lemma_wf(&self)
        requires
            self.wf(),
        ensures
            self@.wf(),
    {
    }

    pub fn width(&self) -> (r: usize)
        ensures
            r == self@.width,
    {
        self.width
    }

    pub fn height(&self) -> (r: usize)
        ensures
            r == self@.height,
    {
        self.height
    }

    pub fn max_samples(&self) -> (r: u32)
        ensures
            r == self@.max_samples,
    {
        self.max_samples
    }

    /// The place of pixel `(x, y)` among the cells.
    fn calc_index(&self, x: usize, y: usize) -> (r: usize)
        requires
            self.wf(),
            self@.in_bounds(x as int, y as int),
        ensures
            r == self@.index(x as int, y as int),
            r < self@.cells.len(),
            r < self.samples@.len(),
            r < self.colours@.len(),
    {
        proof {
            lemma_index_in_bounds(self.width as nat, self.height as nat, x as int, y as int);
            assert(self.width * y >= 0) by (nonlinear_arith);
        }
        x + self.width * y
    }

    /// The column and row of the cell at place `index`.
    fn calc_coords(&self, index: usize) -> (r: (usize, usize))
        requires
            self@.width > 0,
        ensures
            (r.0 as int, r.1 as int) == coords_of(self@.width, index as int),
    {
        let x = index % self.width;
        let y = index / self.width;
        (x, y)
    }

    /// Takes one more colour sample for pixel `(x, y)`. A saturated pixel
    /// takes none. The first sample of a pixel replaces its colour sum, later
    /// ones are added to it.
    pub fn add_sample_to_map(&mut self, x: usize, y: usize, value: Vec3Simd)
        requires
            old(self).wf(),
            old(self)@.in_bounds(x as int, y as int),
        ensures
            final(self).wf(),
            final(self)@ == old(self)@.add_sample(x as int, y as int, value@),
    {
        let index = self.calc_index(x, y);
        let count = self.samples[index];

        if count == self.max_samples {
            return ;
        }
        let colour = if count == 0 {
            value
        } else {
            self.colours[index].add(value)
        };
        self.colours.set(index, colour);
        self.samples.set(index, count + 1);
        proof {
            assert(self@.cells =~= old(self)@.add_sample(x as int, y as int, value@).cells);
        }
    }

    /// `add_sample_to_map` under its other name.
    pub fn set_value(&mut self, x: usize, y: usize, value: Vec3Simd)
        requires
            old(self).wf(),
            old(self)@.in_bounds(x as int, y as int),
        ensures
            final(self).wf(),
            final(self)@ == old(self)@.add_sample(x as int, y as int, value@),
    {
        self.add_sample_to_map(x, y, value);
    }

    /// Whether pixel `(x, y)` has taken as many samples as the map allows.
    pub fn is_saturated(&self, x: usize, y: usize) -> (r: bool)
        requires
            self.wf(),
            self@.in_bounds(x as int, y as int),
        ensures
            r == self@.is_saturated(x as int, y as int),
    {
        let index = self.calc_index(x, y);
        self.samples[index] >= self.max_samples
    }

    /// The colour sum and the number of samples of pixel `(x, y)`.
    pub fn get_values(&self, x: usize, y: usize) -> (r: (Vec3Simd, u32))
        requires
            self.wf(),
            self@.in_bounds(x as int, y as int),
        ensures
            r.0@ == self@.cell(x as int, y as int).colour,
            r.1 == self@.cell(x as int, y as int).samples,
    {
        let index = self.calc_index(x, y);
        (self.colours[index], self.samples[index])
    }

    /// The display colour of pixel `(x, y)`.
    pub fn constrain_colour(&self, x: usize, y: usize) -> (r: Rgb)
        requires
            self.wf(),
            self@.in_bounds(x as int, y as int),
        ensures
            r == self@.normalized_colour(x as int, y as int),
    {
        let (values, samples) = self.get_values(x, y);
        values.constrain_colour(samples)
    }

    /// Resets every sample count to zero. Colour sums stay; the next sample of
    /// each pixel replaces its sum.
    pub fn invalidate_samples(&mut self)
        requires
            old(self).wf(),
        ensures
            final(self).wf(),
            final(self)@ == old(self)@.invalidate(),
    {
        let n = self.samples.len();
        let mut i: usize = 0;
        while i < n
            invariant
                i <= n,
                n == self.samples@.len(),
                self.colours == old(self).colours,
                self.width == old(self).width,
                self.height == old(self).height,
                self.max_samples == old(self).max_samples,
                self.samples@.len() == old(self).samples@.len(),
                self.colours@.len() == self.width * self.height,
                self.samples@.len() == self.width * self.height,
                self.width * self.height <= usize::MAX,
                forall|k: int| 0 <= k < i ==> (#[trigger] self.samples@[k]) == 0,
                forall|k: int|
                    i <= k < n ==> (#[trigger] self.samples@[k]) == old(self).samples@[k],
                forall|k: int| 0 <= k < n ==> (#[trigger] old(self).samples@[k]) <= self.max_samples,
            decreases n - i,
        {
            self.samples.set(i, 0);
            i = i + 1;
        }
        proof {
            assert(self@.cells =~= old(self)@.invalidate().cells);
        }
    }

    /// The places of the cells without a sample, in rising order.
    fn unsampled(&self) -> (r: Vec<usize>)
        requires
            self.wf(),
        ensures
            forall|k: int| 0 <= k < r@.len() ==> self@.is_unsampled(#[trigger] r@[k] as int),
            forall|i: int| self@.is_unsampled(i) ==> r@.contains(i as usize),
    {
        let mut all_unsampled: Vec<usize> = Vec::new();
        let n = self.samples.len();
        let mut i: usize = 0;
        while i < n
            invariant
                i <= n,
                n == self.samples@.len(),
                n == self@.cells.len(),
                forall|k: int|
                    0 <= k < all_unsampled@.len() ==> self@.is_unsampled(
                        #[trigger] all_unsampled@[k] as int,
                    ),
                forall|j: int|
                    0 <= j < i && self@.is_unsampled(j) ==> all_unsampled@.contains(j as usize),
            decreases n - i,
        {
            if self.samples[i] == 0 {
                let ghost before = all_unsampled@;
                all_unsampled.push(i);
                proof {
                    assert(all_unsampled@[before.len() as int] == i);
                    assert forall|j: int|
                        0 <= j < i + 1 && self@.is_unsampled(j) implies all_unsampled@.contains(
                        j as usize,
                    ) by {
                        if j < i {
                            let k = choose|k: int| 0 <= k < before.len() && before[k] == j as usize;
                            assert(all_unsampled@[k] == j as usize);
                        }
                    }
                }
            }
            i = i + 1;
        }
        all_unsampled
    }

    /// A pixel without a sample, picked at random; pixel `(0, 0)` where every
    /// pixel has one.
    pub fn get_random_unsaturated(&self) -> (r: (usize, usize))
        requires
            self.wf(),
            self@.width > 0,
        ensures
            (exists|i: int| self@.is_unsampled(i)) ==> self@.in_bounds(r.0 as int, r.1 as int)
                && self@.cell(r.0 as int, r.1 as int).samples == 0,
            (forall|i: int| !self@.is_unsampled(i)) ==> r == (0usize, 0usize),
    {
        let all_unsampled = self.unsampled();
        let choice = match random_choice(&all_unsampled) {
            Some(c) => c,
            None => 0,
        };
        proof {
            if exists|i: int| self@.is_unsampled(i) {
                let i = choose|i: int| self@.is_unsampled(i);
                assert(all_unsampled@.contains(i as usize));
                assert(self@.is_unsampled(choice as int));
                lemma_coords_in_bounds(self@.width, self@.height, choice as int);
            }
        }
        self.calc_coords(choice)
    }

    /// The display colour of the cell at place `index`.
    fn constrain_at(&self, index: usize) -> (r: Rgb)
        requires
            self.wf(),
            index < self@.cells.len(),
        ensures
            r == v3_constrain(
                self@.cells[index as int].colour,
                self@.cells[index as int].samples as int,
            ),
    {
        self.colours[index].constrain_colour(self.samples[index])
    }

    /// The display image: the pixels row by row, three bytes each in the order
    /// red, green, blue.
    pub fn get_pixel_data(&self) -> (r: Vec<u8>)
        requires
            self.wf(),
        ensures
            r@ == self@.pixel_data(),
    {
        let mut colour_data: Vec<u8> = Vec::new();
        let n = self.samples.len();
        let mut pos: usize = 0;
        while pos < n
            invariant
                self.wf(),
                pos <= n,
                n == self@.cells.len(),
                colour_data@.len() == 3 * pos,
                forall|k: int| 0 <= k < 3 * pos ==> colour_data@[k] == self@.pixel_byte(k),
            decreases n - pos,
        {
            let shown = self.constrain_at(pos);
            colour_data.push(shown.r);
            colour_data.push(shown.g);
            colour_data.push(shown.b);
            pos = pos + 1;
        }
        proof {
            assert(colour_data@ =~= self@.pixel_data());
        }
        colour_data
    }
}

impl Default for SampleMap {
    /// The map of a single pixel that takes a single sample.
    fn default() -> (r: Self)
        ensures
            r.wf(),
            r@ == SampleMapModel::fresh(1, 1, 1),
    {
        SampleMap::new(1, 1, 1)
    }
}

} // verus!
