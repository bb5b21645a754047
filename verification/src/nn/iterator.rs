//! Cutting a stream into overlapping windows, padding it, and arranging what comes
//! out for the model.

use std::collections::VecDeque;
use vstd::arithmetic::div_mod::{lemma_fundamental_div_mod, lemma_fundamental_div_mod_converse};
use vstd::prelude::*;

verus! {

/// Gathers a stream into windows of `window_size` items, each of which begins
/// `step_size` items after the one before.
pub struct OverlappingWindows<T> {
    buffer: VecDeque<T>,
    step_size: usize,
    window_size: usize,
}

/// What has gathered, and how windows are cut.
pub struct WindowsView<T> {
    pub buffer: Seq<T>,
    pub step: nat,
    pub window: nat,
}

impl<T> WindowsView<T> {
    /// A step does not go past the window, or past the item that completed it.
    pub open spec fn wf(self) -> bool {
        self.step <= self.window || self.step <= 1
    }

    /// What has gathered with one item more.
    pub open spec fn with(self, item: T) -> Seq<T> {
        self.buffer.push(item)
    }

    /// The state after an item: where a window was cut, its first items go.
    pub open spec fn after(self, item: T) -> WindowsView<T> {
        if self.with(item).len() >= self.window {
            WindowsView { buffer: self.with(item).skip(self.step as int), ..self }
        } else {
            WindowsView { buffer: self.with(item), ..self }
        }
    }

    /// The window that an item completes, if it does.
    pub open spec fn completes(self, item: T) -> Option<Seq<T>> {
        if self.with(item).len() >= self.window {
            Some(self.with(item).take(self.window as int))
        } else {
            None
        }
    }

    /// The state after several items.
    pub open spec fn after_all(self, items: Seq<T>) -> WindowsView<T>
        decreases items.len(),
    {
        if items.len() == 0 {
            self
        } else {
            self.after_all(items.drop_last()).after(items.last())
        }
    }

    /// The windows that several items complete.
    pub open spec fn windows(self, items: Seq<T>) -> Seq<Seq<T>>
        decreases items.len(),
    {
        if items.len() == 0 {
            Seq::empty()
        } else {
            let before = self.windows(items.drop_last());
            match self.after_all(items.drop_last()).completes(items.last()) {
                Some(window) => before.push(window),
                None => before,
            }
        }
    }
}

impl<T> View for OverlappingWindows<T> {
    type V = WindowsView<T>;

    closed spec fn view(&self) -> WindowsView<T> {
        WindowsView {
            buffer: self.buffer@,
            step: self.step_size as nat,
            window: self.window_size as nat,
        }
    }
}

/// A window state in which nothing has gathered.
pub open spec fn no_windows<T>(step: nat, window: nat) -> WindowsView<T> {
    WindowsView { buffer: Seq::empty(), step, window }
}

impl<T: Copy> OverlappingWindows<T> {
    /// Windows of `window_size` items that begin `step_by` items apart.
    pub fn new(step_by: usize, window_size: usize) -> (r: OverlappingWindows<T>)
        ensures
            r@ == no_windows::<T>(step_by as nat, window_size as nat),
    {
        OverlappingWindows {
            buffer: VecDeque::with_capacity(window_size),
            step_size: step_by,
            window_size,
        }
    }

    /// Takes in the next item of the stream, and hands out the window that it
    /// completes.
    pub fn next(&mut self, item: T) -> (r: Option<Vec<T>>)
        requires
            old(self)@.wf(),
        ensures
            final(self)@.wf(),
            final(self)@ == old(self)@.after(item),
            match r {
                Some(window) => old(self)@.completes(item) == Some(window@),
                None => old(self)@.completes(item) is None,
            },
    {
        self.buffer.push_back(item);
        if self.buffer.len() >= self.window_size {
            let ghost full = self.buffer@;
            let mut value: Vec<T> = Vec::new();
            for i in 0..self.window_size
                invariant
                    self.window_size <= self.buffer@.len(),
                    value@ == self.buffer@.take(i as int),
            {
                value.push(self.buffer[i]);
                assert(self.buffer@.take(i + 1) =~= self.buffer@.take(i as int).push(
                    self.buffer@[i as int],
                ));
            }
            let step: usize = self.step_size;
            for i in 0..step
                invariant
                    self.buffer@ == full.skip(i as int),
                    step <= full.len(),
                    self.step_size == step,
                    self.step_size == old(self)@.step,
                    self.window_size == old(self)@.window,
            {
                let _ = self.buffer.pop_front();
                assert(self.buffer@ =~= full.skip(i + 1));
            }
            return Some(value);
        }
        None
    }
}

/// Whether `w` is the stretch of `len` items of a stream that begins at `from`.
pub open spec fn is_stretch<T>(items: Seq<T>, from: int, len: nat, w: Seq<T>) -> bool {
    0 <= from && from + len <= items.len() && w == items.subrange(from, from + len)
}

/// The windows of a stream are its stretches of the window's length at every
/// multiple of the step, in order, and what has gathered is what follows the last
/// step.
pub proof fn windows_are_stretches<T>(items: Seq<T>, step: nat, window: nat)
    requires
        no_windows::<T>(step, window).wf(),
    ensures
        ({
            let cut = no_windows::<T>(step, window).windows(items);
            let end = no_windows::<T>(step, window).after_all(items);
            &&& step * cut.len() <= items.len()
            &&& end == WindowsView { buffer: items.skip((step * cut.len()) as int), step, window }
            &&& forall|k: int|
                0 <= k < cut.len() ==> is_stretch(items, step * k, window, #[trigger] cut[k])
        }),
    decreases items.len(),
{
    let start = no_windows::<T>(step, window);
    let cut = start.windows(items);
    let end = start.after_all(items);
    if items.len() == 0 {
        assert(step * 0 == 0) by (nonlinear_arith);
        assert(end.buffer =~= items.skip(0));
    } else {
        let rest = items.drop_last();
        windows_are_stretches(rest, step, window);
        let before = start.after_all(rest);
        let old_cut = start.windows(rest);
        let m = old_cut.len();
        let with = before.with(items.last());
        assert(with =~= items.skip((step * m) as int));
        assert forall|k: int| 0 <= k < m implies is_stretch(
            items,
            step * k,
            window,
            #[trigger] old_cut[k],
        ) by {
            assert(is_stretch(rest, step * k, window, old_cut[k]));
            assert(rest.subrange(step * k, step * k + window) =~= items.subrange(
                step * k,
                step * k + window,
            ));
        }
        if with.len() >= window {
            assert(cut == old_cut.push(with.take(window as int)));
            assert(step * (m + 1) == step * m + step) by (nonlinear_arith);
            assert(with.take(window as int) =~= items.subrange(
                (step * m) as int,
                (step * m + window) as int,
            ));
            assert(with.skip(step as int) =~= items.skip((step * (m + 1)) as int));
            assert forall|k: int| 0 <= k < cut.len() implies is_stretch(
                items,
                step * k,
                window,
                #[trigger] cut[k],
            ) by {
                if k < m {
                    assert(cut[k] == old_cut[k]);
                }
            }
            assert(cut.len() == m + 1);
        } else {
            assert(cut == old_cut);
        }
        assert(step * cut.len() <= items.len());
        assert(end.buffer == items.skip((step * cut.len()) as int));
    }
}

/// How many windows a stream has, where windows move on.
pub proof fn window_count<T>(items: Seq<T>, step: nat, window: nat)
    requires
        0 < step <= window,
    ensures
        no_windows::<T>(step, window).windows(items).len() == if items.len() < window {
            0
        } else {
            (items.len() - window) / step as int + 1
        },
{
    lemma_gathered(items, step, window);
    let m = no_windows::<T>(step, window).windows(items).len() as int;
    let n = items.len() as int;
    if m > 0 {
        let q = m - 1;
        let r = n - window - step * q;
        assert(step * m == step * q + step) by (nonlinear_arith)
            requires
                m == q + 1,
        ;
        assert(n - window == q * step + r) by (nonlinear_arith)
            requires
                r == n - window - step * q,
        ;
        lemma_fundamental_div_mod_converse(n - window, step as int, q, r);
        assert(0 <= step * q) by (nonlinear_arith)
            requires
                0 <= q,
                0 < step,
        ;
    } else {
        assert(step * 0 == 0) by (nonlinear_arith);
    }
}

/// What has gathered is shorter than a window, and overlaps the last one.
proof fn lemma_gathered<T>(items: Seq<T>, step: nat, window: nat)
    requires
        0 < step <= window,
    ensures
        ({
            let m = no_windows::<T>(step, window).windows(items).len();
            &&& step * m <= items.len()
            &&& items.len() - step * m < window
            &&& m > 0 ==> items.len() - step * m >= window - step
        }),
    decreases items.len(),
{
    windows_are_stretches(items, step, window);
    if items.len() > 0 {
        let rest = items.drop_last();
        lemma_gathered(rest, step, window);
        windows_are_stretches(rest, step, window);
        let m = no_windows::<T>(step, window).windows(rest).len();
        assert(step * (m + 1) == step * m + step) by (nonlinear_arith);
    } else {
        assert(step * 0 == 0) by (nonlinear_arith);
    }
}

/// A stream that goes on with copies of a value when it has ended.
pub struct PaddingIterator<T> {
    remaining: usize,
    pad_size: usize,
    pad_value: T,
}

/// How far a padded stream has come: `remaining` counts down to the next multiple
/// of `pad_size` items.
pub struct PaddingView<T> {
    pub remaining: nat,
    pub pad_size: nat,
    pub pad_value: T,
}

impl<T> PaddingView<T> {
    /// The state after one more pull, which found an item or the end of the stream.
    pub open spec fn after(self, found: Option<T>) -> PaddingView<T> {
        let left = (self.remaining - 1) as nat;
        PaddingView {
            remaining: if found is Some && left == 0 {
                self.pad_size
            } else {
                left
            },
            ..self
        }
    }

    /// What one more pull gives: the item, or the value until the count is down.
    pub open spec fn gives(self, found: Option<T>) -> Option<T> {
        match found {
            Some(item) => Some(item),
            None => if self.remaining > 1 {
                Some(self.pad_value)
            } else {
                None
            },
        }
    }

    /// The state after `pulls` pulls on a stream of `items`.
    pub open spec fn pulled(self, items: Seq<T>, pulls: nat) -> PaddingView<T>
        decreases pulls,
    {
        if pulls == 0 {
            self
        } else {
            self.pulled(items, (pulls - 1) as nat).after(found(items, pulls - 1))
        }
    }
}

/// What a pull finds in a stream.
pub open spec fn found<T>(items: Seq<T>, pull: int) -> Option<T> {
    if 0 <= pull < items.len() {
        Some(items[pull])
    } else {
        None
    }
}

/// How many copies of the value follow a stream of `len` items: one less than are
/// missing to the next multiple of `pad_size`.
pub open spec fn padding(len: nat, pad_size: nat) -> int {
    pad_size - len % pad_size - 1
}

/// A stream with the copies of the value that follow it.
pub open spec fn padded<T>(items: Seq<T>, pad_size: nat, pad_value: T) -> Seq<T> {
    items + Seq::new(padding(items.len(), pad_size) as nat, |i: int| pad_value)
}

impl<T> View for PaddingIterator<T> {
    type V = PaddingView<T>;

    closed spec fn view(&self) -> PaddingView<T> {
        PaddingView {
            remaining: self.remaining as nat,
            pad_size: self.pad_size as nat,
            pad_value: self.pad_value,
        }
    }
}

/// The state before the first pull.
pub open spec fn unpulled<T>(pad_size: nat, pad_value: T) -> PaddingView<T> {
    PaddingView { remaining: pad_size, pad_size, pad_value }
}

impl<T: Copy> PaddingIterator<T> {
    /// Pads with `pad_value` towards a multiple of `pad_size` items.
    pub fn new(pad_size: usize, pad_value: T) -> (r: PaddingIterator<T>)
        ensures
            r@ == unpulled(pad_size as nat, pad_value),
    {
        PaddingIterator { remaining: pad_size, pad_size, pad_value }
    }

    /// Takes in what a pull on the stream found, and gives what the padded stream
    /// gives.
    pub fn next(&mut self, next_value: Option<T>) -> (r: Option<T>)
        requires
            old(self)@.remaining > 0,
        ensures
            final(self)@ == old(self)@.after(next_value),
            r == old(self)@.gives(next_value),
    {
        self.remaining = self.remaining - 1;
        match next_value {
            Some(value) => {
                if self.remaining == 0 {
                    self.remaining = self.pad_size;
                }
                Some(value)
            },
            None => if self.remaining > 0 {
                Some(self.pad_value)
            } else {
                None
            },
        }
    }
}

/// A padded stream gives its items, then the copies of the value, and then ends.
/// Until then it can be pulled.
pub proof fn padding_follows_the_items<T>(items: Seq<T>, pad_size: nat, pad_value: T, pull: nat)
    requires
        pad_size > 0,
        pull <= padded(items, pad_size, pad_value).len(),
    ensures
        ({
            let all = padded(items, pad_size, pad_value);
            let state = unpulled(pad_size, pad_value).pulled(items, pull);
            &&& state.remaining == if pull <= items.len() {
                pad_size - pull % pad_size
            } else {
                pad_size - items.len() % pad_size - (pull - items.len())
            }
            &&& state.remaining > 0
            &&& state.pad_size == pad_size
            &&& state.pad_value == pad_value
            &&& state.gives(found(items, pull as int)) == found(all, pull as int)
        }),
    decreases pull,
{
    assert(items.len() % pad_size < pad_size);
    assert(pull % pad_size < pad_size);
    if pull > 0 {
        let before = (pull - 1) as nat;
        padding_follows_the_items(items, pad_size, pad_value, before);
        if pull <= items.len() {
            lemma_next_rest(before, pad_size);
        }
    } else {
        assert(0nat % pad_size == 0);
    }
}

/// How the rest of a division goes on.
proof fn lemma_next_rest(n: nat, d: nat)
    requires
        d > 0,
    ensures
        (n + 1) % d == if n % d == d - 1 {
            0
        } else {
            n % d + 1
        },
{
    let q = n as int / d as int;
    let r = n as int % d as int;
    lemma_fundamental_div_mod(n as int, d as int);
    if r == d - 1 {
        assert(n + 1 == (q + 1) * d) by (nonlinear_arith)
            requires
                n == d * q + r,
                r == d - 1,
        ;
        lemma_fundamental_div_mod_converse((n + 1) as int, d as int, q + 1, 0);
    } else {
        assert(n + 1 == q * d + (r + 1)) by (nonlinear_arith)
            requires
                n == d * q + r,
        ;
        lemma_fundamental_div_mod_converse((n + 1) as int, d as int, q, r + 1);
    }
}

/// The numbers that groups of four bytes stand for, the lowest byte first. Bytes
/// that do not make a group are left out.
pub open spec fn words(bytes: Seq<u8>) -> Seq<u32> {
    Seq::new(
        (bytes.len() / 4) as nat,
        |i: int|
            (bytes[4 * i] + 0x100 * bytes[4 * i + 1] + 0x1_0000 * bytes[4 * i + 2] + 0x100_0000
                * bytes[4 * i + 3]) as u32,
    )
}

/// Reads the filter bank of the model: the bit patterns of its values.
pub fn load_mel_filters(filter_bytes: &Vec<u8>) -> (r: Vec<u32>)
    ensures
        r@ == words(filter_bytes@),
{
    let mut r: Vec<u32> = Vec::new();
    let len: usize = filter_bytes.len();
    let count: usize = len / 4;
    for i in 0..count
        invariant
            len == filter_bytes@.len(),
            count == len / 4,
            r@ == words(filter_bytes@).take(i as int),
    {
        let word: u32 = filter_bytes[4 * i] as u32 + 0x100 * (filter_bytes[4 * i + 1] as u32)
            + 0x1_0000 * (filter_bytes[4 * i + 2] as u32) + 0x100_0000 * (filter_bytes[4 * i
            + 3] as u32);
        r.push(word);
        assert(r@ =~= words(filter_bytes@).take(i + 1));
    }
    assert(words(filter_bytes@).take(count as int) =~= words(filter_bytes@));
    r
}

/// Turns rows of columns into one sequence of columns: all first values, then all
/// second values, and so on for as many as the first row has.
pub fn transpose<T: Copy>(data: &Vec<Vec<T>>) -> (r: Vec<T>)
    requires
        data@.len() > 0,
        forall|i: int| 0 <= i < data@.len() ==> (#[trigger] data@[i])@.len() >= data@[0]@.len(),
    ensures
        r@.len() == data@[0]@.len() * data@.len(),
        forall|i: int, j: int|
            0 <= i < data@.len() && 0 <= j < data@[0]@.len() ==> #[trigger] data@[i]@[j] == r@[j
                * data@.len() + i],
{
    let rows: usize = data.len();
    let columns: usize = data[0].len();
    let mut r: Vec<T> = Vec::new();
    assert(0 * rows == 0) by (nonlinear_arith);
    for j in 0..columns
        invariant
            rows == data@.len(),
            columns == data@[0]@.len(),
            rows > 0,
            forall|i: int| 0 <= i < rows ==> (#[trigger] data@[i])@.len() >= columns,
            r@.len() == j * rows,
            forall|i: int, k: int|
                0 <= i < rows && 0 <= k < j ==> #[trigger] data@[i]@[k] == r@[k * rows + i],
    {
        for i in 0..rows
            invariant
                rows == data@.len(),
                columns == data@[0]@.len(),
                0 <= j < columns,
                forall|i: int| 0 <= i < rows ==> (#[trigger] data@[i])@.len() >= columns,
                r@.len() == j * rows + i,
                forall|i: int, k: int|
                    0 <= i < rows && 0 <= k < j ==> #[trigger] data@[i]@[k] == r@[k * rows + i],
                forall|m: int| 0 <= m < i ==> #[trigger] data@[m]@[j as int] == r@[j * rows + m],
        {
            let ghost before = r@;
            r.push(data[i][j]);
            proof {
                assert forall|m: int, k: int| 0 <= m < rows && 0 <= k < j implies #[trigger] data@[m]@[k]
                    == r@[k * rows + m] by {
                    assert(0 <= k * rows + m < j * rows) by (nonlinear_arith)
                        requires
                            0 <= m < rows,
                            0 <= k < j,
                    ;
                    assert(r@[k * rows + m] == before[k * rows + m]);
                }
                assert forall|m: int| 0 <= m < i + 1 implies #[trigger] data@[m]@[j as int]
                    == r@[j * rows + m] by {
                    assert(0 <= j * rows) by (nonlinear_arith)
                        requires
                            0 <= j,
                            0 <= rows,
                    ;
                    if m < i {
                        assert(r@[j * rows + m] == before[j * rows + m]);
                    }
                }
            }
        }
        assert((j + 1) * rows == j * rows + rows) by (nonlinear_arith);
    }
    r
}

/// The shape of a batch of one spectrogram with `bins` rows, which holds every value
/// exactly if the values fill the rows.
pub fn mel_shape(values: usize, bins: usize) -> (r: (usize, usize, usize))
    requires
        bins > 0,
    ensures
        r == (1usize, bins, (values / bins) as usize),
        r.0 * r.1 * r.2 == values <==> values % bins == 0,
{
    proof {
        lemma_fundamental_div_mod(values as int, bins as int);
        assert(1 * bins * (values / bins) == bins * (values / bins)) by (nonlinear_arith);
    }
    (1, bins, values / bins)
}

/// The samples of a piece that is to be resampled, filled up to its full length.
pub open spec fn filled<T>(piece: Seq<T>, len: nat, fill: T) -> Seq<T> {
    piece + Seq::new((len - piece.len()) as nat, |i: int| fill)
}

/// The piece of a stream that begins after `k` full pieces.
pub open spec fn piece<T>(items: Seq<T>, len: nat, k: int) -> Seq<T> {
    let from = k * len;
    let to = if from + len <= items.len() {
        from + len
    } else {
        items.len() as int
    };
    items.subrange(from, to)
}

/// Pads samples and cuts them into pieces of one length, the last of which is filled
/// up.
pub fn pad_and_cut<T: Copy>(samples: &Vec<T>, pad_size: usize, len: usize, fill: T) -> (r: Vec<Vec<T>>)
    requires
        pad_size > 0,
        len > 0,
    ensures
        ({
            let all = padded(samples@, pad_size as nat, fill);
            &&& (r@.len() - 1) * len < all.len() <= r@.len() * len
            &&& forall|k: int|
                0 <= k < r@.len() ==> (#[trigger] r@[k])@ == filled(
                    piece(all, len as nat, k),
                    len as nat,
                    fill,
                )
        }),
        forall|k: int| 0 <= k < r@.len() ==> (#[trigger] r@[k])@.len() == len,
        forall|k: int, j: int|
            0 <= k < r@.len() && 0 <= j < len ==> #[trigger] r@[k]@[j] == if k * len + j
                < samples@.len() {
                samples@[k * len + j]
            } else {
                fill
            },
{
    let ghost all = padded(samples@, pad_size as nat, fill);
    let ghost start = unpulled(pad_size as nat, fill);
    let mut padding = PaddingIterator::new(pad_size, fill);
    let mut pieces: Vec<Vec<T>> = Vec::new();
    let mut current: Vec<T> = Vec::new();
    let mut next_sample: usize = 0;
    let ghost mut pulls: nat = 0;
    let mut ended = false;
    assert(0 * len == 0) by (nonlinear_arith);
    while !ended
        invariant
            pad_size > 0,
            len > 0,
            all == padded(samples@, pad_size as nat, fill),
            start == unpulled(pad_size as nat, fill),
            pulls <= all.len(),
            padding@ == start.pulled(samples@, pulls) || ended,
            next_sample == if pulls <= samples@.len() {
                pulls as int
            } else {
                samples@.len() as int
            },
            ended ==> pulls == all.len(),
            pulls == pieces@.len() * len + current@.len(),
            current@.len() < len,
            current@ == all.subrange(pieces@.len() * len, pulls as int),
            forall|k: int|
                0 <= k < pieces@.len() ==> (#[trigger] pieces@[k])@ == all.subrange(
                    k * len,
                    k * len + len,
                ),
        decreases
            all.len() - pulls + if ended {
                0int
            } else {
                1
            },
    {
        proof {
            padding_follows_the_items(samples@, pad_size as nat, fill, pulls);
        }
        let found_sample: Option<T> = if next_sample < samples.len() {
            Some(samples[next_sample])
        } else {
            None
        };
        if next_sample < samples.len() {
            next_sample = next_sample + 1;
        }
        match padding.next(found_sample) {
            Some(value) => {
                let ghost before = current@;
                let ghost full = pieces@.len();
                assert(0 <= full * len) by (nonlinear_arith)
                    requires
                        0 <= full,
                        0 < len,
                ;
                current.push(value);
                proof {
                    pulls = pulls + 1;
                    assert(current@ =~= all.subrange(full * len, pulls as int));
                }
                if current.len() == len {
                    assert((full + 1) * len == full * len + len) by (nonlinear_arith);
                    pieces.push(current);
                    current = Vec::new();
                    assert(current@ =~= all.subrange((full + 1) * len, pulls as int));
                }
            },
            None => {
                ended = true;
            },
        }
    }
    let ghost full = pieces@.len();
    assert forall|k: int| 0 <= k < full implies (#[trigger] pieces@[k])@ == filled(
        piece(all, len as nat, k),
        len as nat,
        fill,
    ) by {
        assert(0 <= k * len && k * len + len <= full * len) by (nonlinear_arith)
            requires
                0 <= k < full,
                0 < len,
        ;
        assert(pieces@[k]@ =~= filled(piece(all, len as nat, k), len as nat, fill));
    }
    assert((full - 1) * len == full * len - len) by (nonlinear_arith);
    assert((full + 1) * len == full * len + len) by (nonlinear_arith);
    if current.len() > 0 {
        let ghost rest = current@;
        while current.len() < len
            invariant
                rest.len() <= current@.len() <= len,
                current@ == rest + Seq::new((current@.len() - rest.len()) as nat, |i: int| fill),
            decreases len - current@.len(),
        {
            current.push(fill);
            assert(current@ =~= rest + Seq::new(
                (current@.len() - rest.len()) as nat,
                |i: int| fill,
            ));
        }
        assert(current@ =~= filled(piece(all, len as nat, full as int), len as nat, fill));
        pieces.push(current);
    }
    proof {
        let r = pieces@;
        assert((r.len() - 1) * len < all.len());
        assert forall|k: int, j: int| 0 <= k < r.len() && 0 <= j < len implies #[trigger] r[k]@[j]
            == if k * len + j < samples@.len() {
            samples@[k * len + j]
        } else {
            fill
        } by {
            assert(k * len <= (r.len() - 1) * len) by (nonlinear_arith)
                requires
                    k <= r.len() - 1,
                    0 < len,
            ;
            pieces_hold_the_samples(samples@, pad_size as nat, len as nat, fill, k, j);
        }
        assert forall|k: int| 0 <= k < r.len() implies (#[trigger] r[k])@.len() == len by {
            assert(k * len <= (r.len() - 1) * len) by (nonlinear_arith)
                requires
                    k <= r.len() - 1,
                    0 < len,
            ;
            pieces_hold_the_samples(samples@, pad_size as nat, len as nat, fill, k, 0);
        }
    }
    pieces
}

/// A piece of padded samples holds the samples that lie there, and the value where there
/// are none.
pub proof fn pieces_hold_the_samples<T>(
    samples: Seq<T>,
    pad_size: nat,
    len: nat,
    fill: T,
    k: int,
    j: int,
)
    requires
        pad_size > 0,
        0 <= k,
        0 <= j < len,
        k * len < padded(samples, pad_size, fill).len(),
    ensures
        ({
            let held = filled(piece(padded(samples, pad_size, fill), len, k), len, fill);
            &&& held.len() == len
            &&& held[j] == if k * len + j < samples.len() {
                samples[k * len + j]
            } else {
                fill
            }
        }),
{
    assert(0 <= k * len) by (nonlinear_arith)
        requires
            0 <= k,
            0 <= len,
    ;
    assert(samples.len() % pad_size < pad_size);
}

/// A padded stream is the stream, and then the value, up to one item less than the next
/// multiple of the size.
pub proof fn padding_stops_short_of_a_multiple<T>(items: Seq<T>, pad_size: nat, pad_value: T)
    requires
        pad_size > 0,
    ensures
        ({
            let all = padded(items, pad_size, pad_value);
            &&& all.len() >= items.len()
            &&& all.len() < items.len() + pad_size
            &&& (all.len() + 1) % pad_size == 0
            &&& forall|i: int| 0 <= i < items.len() ==> #[trigger] all[i] == items[i]
            &&& forall|i: int| items.len() <= i < all.len() ==> #[trigger] all[i] == pad_value
        }),
{
    let all = padded(items, pad_size, pad_value);
    let n = items.len() as int;
    let d = pad_size as int;
    assert(0 <= n % d < d);
    lemma_fundamental_div_mod(n, d);
    assert(all.len() + 1 == (n / d + 1) * d + 0) by (nonlinear_arith)
        requires
            all.len() + 1 == n + d - n % d,
            n == d * (n / d) + n % d,
    ;
    lemma_fundamental_div_mod_converse((all.len() + 1) as int, d, n / d + 1, 0);
}

/// What one more pull on a padded stream gives: what the stream gives, and after its end
/// the value, until the count is down. A full count begins anew with the stream.
pub proof fn pulls_count_down<T>(state: PaddingView<T>, item: T)
    requires
        state.remaining > 0,
    ensures
        state.gives(Some(item)) == Some(item),
        state.remaining > 1 ==> state.gives(None) == Some(state.pad_value),
        state.remaining == 1 ==> state.gives(None) is None,
        state.remaining > 1 ==> state.after(Some(item)).remaining == state.remaining - 1,
        state.remaining == 1 ==> state.after(Some(item)).remaining == state.pad_size,
        state.after(None).remaining == state.remaining - 1,
        state.after(Some(item)).pad_size == state.pad_size,
        state.after(Some(item)).pad_value == state.pad_value,
        state.after(None).pad_size == state.pad_size,
        state.after(None).pad_value == state.pad_value,
{
}

/// Every window repeats the stream from where it begins: item `j` of window `k` is the
/// item of the stream that lies `j` items behind `k` steps.
pub proof fn windows_repeat_the_stream<T>(items: Seq<T>, step: nat, window: nat, k: int)
    requires
        step <= window,
        0 <= k < no_windows::<T>(step, window).windows(items).len(),
    ensures
        ({
            let cut = no_windows::<T>(step, window).windows(items)[k];
            &&& cut.len() == window
            &&& step * k + window <= items.len()
            &&& forall|j: int| 0 <= j < window ==> #[trigger] cut[j] == items[step * k + j]
        }),
{
    windows_are_stretches(items, step, window);
    assert(is_stretch(
        items,
        step * k,
        window,
        no_windows::<T>(step, window).windows(items)[k],
    ));
}

/// What one more item does: it goes behind what has gathered, and as soon as a window has
/// gathered, that window is cut and the items of one step go.
pub proof fn items_complete_windows<T>(state: WindowsView<T>, item: T)
    requires
        state.wf(),
    ensures
        ({
            let gathered = state.buffer.len() + 1;
            let then = state.after(item);
            &&& then.step == state.step
            &&& then.window == state.window
            &&& gathered < state.window ==> {
                &&& state.completes(item) is None
                &&& then.buffer == state.buffer.push(item)
            }
            &&& gathered >= state.window ==> {
                &&& state.completes(item) is Some
                &&& state.completes(item)->0 == state.buffer.push(item).subrange(
                    0,
                    state.window as int,
                )
                &&& then.buffer == state.buffer.push(item).subrange(
                    state.step as int,
                    gathered as int,
                )
            }
        }),
{
}

/// The filter bank has a value for every four bytes, of which the first counts least.
pub proof fn filters_are_read_from_four_bytes(bytes: Seq<u8>, i: int)
    requires
        0 <= i,
        4 * i + 4 <= bytes.len(),
    ensures
        words(bytes).len() == bytes.len() / 4,
        words(bytes)[i] % 256 == bytes[4 * i],
        words(bytes)[i] / 256 % 256 == bytes[4 * i + 1],
        words(bytes)[i] / 65536 % 256 == bytes[4 * i + 2],
        words(bytes)[i] / 16777216 == bytes[4 * i + 3],
{
}

} // verus!
