use vstd::prelude::*;
use crate::matrix::{Matrix, select};
use vstd::string::StringExecFns;

verus! {

/// Magic number at the head of an image file.
pub const IMAGES_MAGIC: u32 = 0x803;

/// Magic number at the head of a label file.
pub const LABELS_MAGIC: u32 = 0x801;

/// Height and width of every image.
pub const IMAGE_SIDE: u32 = 28;

/// Number of entries of an image (28 x 28).
pub const IMAGE_SIZE: usize = 784;

/// Number of label classes.
pub const NUM_CLASSES: usize = 10;

/// Errors that can occur while loading the dataset.
#[derive(Debug, Clone)]
pub enum MnistError {
    /// Reading, or decompressing, a file failed; the text says why.
    IoError(String),
    /// Downloading a file failed; the text says why.
    HttpError(String),
    /// The file does not start with the magic number of its kind.
    InvalidMagicNumber,
    /// The images are not 28 x 28.
    InvalidDimensions,
}

impl MnistError {
    /// A sentence that describes the error.
    pub fn message(&self) -> (r: String)
        ensures
            r@ == match self {
                MnistError::IoError(e) => "IO error: "@ + e@,
                MnistError::HttpError(e) => "HTTP error: "@ + e@,
                MnistError::InvalidMagicNumber => "Invalid magic number in MNIST file"@,
                MnistError::InvalidDimensions => "Invalid dimensions in MNIST file"@,
            },
    {
        match self {
            MnistError::IoError(e) => "IO error: ".to_owned().concat(e.as_str()),
            MnistError::HttpError(e) => "HTTP error: ".to_owned().concat(e.as_str()),
            MnistError::InvalidMagicNumber => "Invalid magic number in MNIST file".to_owned(),
            MnistError::InvalidDimensions => "Invalid dimensions in MNIST file".to_owned(),
        }
    }
}

/// `r` is the I/O error of a read that stops before the bytes it asked for, with the
/// text that std gives for it.
pub open spec fn is_short_read<A>(r: Result<A, MnistError>) -> bool {
    r matches Err(MnistError::IoError(e)) && e@ == "failed to fill whole buffer"@
}

/// The I/O error of a read that stops before the bytes it asked for.
fn short_read() -> (e: MnistError)
    ensures
        is_short_read::<()>(Err(e)),
{
    MnistError::IoError("failed to fill whole buffer".to_owned())
}

/// The unsigned big-endian integer held by the four bytes of `b` that start at `at`.
pub open spec fn be_u32(b: Seq<u8>, at: int) -> int {
    b[at] as int * 0x1000000 + b[at + 1] as int * 0x10000 + b[at + 2] as int * 0x100 + b[at + 3] as int
}

/// Reads the big-endian integer held by `b[at..at + 4]`.
pub fn read_be_u32(b: &Vec<u8>, at: usize) -> (r: u32)
    requires
        at + 4 <= b@.len(),
    ensures
        r as int == be_u32(b@, at as int),
{
    proof {
        assert(b.len() == b@.len());
    }
    let b0 = b[at] as u32;
    let b1 = b[at + 1] as u32;
    let b2 = b[at + 2] as u32;
    let b3 = b[at + 3] as u32;
    b0 * 0x1000000 + b1 * 0x10000 + b2 * 0x100 + b3
}

/// The image file `d` (decompressed) has the right magic number and dimensions, and
/// holds all the pixels that its header announces.
pub open spec fn images_valid(d: Seq<u8>) -> bool {
    &&& d.len() >= 16
    &&& be_u32(d, 0) == IMAGES_MAGIC
    &&& be_u32(d, 8) == IMAGE_SIDE
    &&& be_u32(d, 12) == IMAGE_SIDE
    &&& d.len() >= 16 + be_u32(d, 4) * IMAGE_SIZE
}

/// The label file `d` (decompressed) has the right magic number and holds all the
/// labels that its header announces.
pub open spec fn labels_valid(d: Seq<u8>) -> bool {
    &&& d.len() >= 8
    &&& be_u32(d, 0) == LABELS_MAGIC
    &&& d.len() >= 8 + be_u32(d, 4)
}

/// `r` is what the image file `d` (decompressed) holds: the errors in the order in
/// which the header is read, then one row of 784 pixels per image.
pub open spec fn images_outcome(d: Seq<u8>, r: Result<Matrix<u8>, MnistError>) -> bool {
    if d.len() < 4 {
        is_short_read(r)
    } else if be_u32(d, 0) != IMAGES_MAGIC {
        r matches Err(MnistError::InvalidMagicNumber)
    } else if d.len() < 16 {
        is_short_read(r)
    } else if be_u32(d, 8) != IMAGE_SIDE || be_u32(d, 12) != IMAGE_SIDE {
        r matches Err(MnistError::InvalidDimensions)
    } else if d.len() < 16 + be_u32(d, 4) * IMAGE_SIZE {
        is_short_read(r)
    } else {
        r matches Ok(m) && m.wf() && m.rows == be_u32(d, 4) && m.cols == IMAGE_SIZE && forall|
            i: int,
            j: int,
        | 0 <= i < m.rows && 0 <= j < IMAGE_SIZE ==> #[trigger] m.entry(i, j) == d[16 + i
            * IMAGE_SIZE + j]
    }
}

/// `r` is what the label file `d` (decompressed) holds: the errors in the order in
/// which the header is read, then one label per item.
pub open spec fn labels_outcome(d: Seq<u8>, r: Result<Vec<u8>, MnistError>) -> bool {
    if d.len() < 4 {
        is_short_read(r)
    } else if be_u32(d, 0) != LABELS_MAGIC {
        r matches Err(MnistError::InvalidMagicNumber)
    } else if d.len() < 8 || d.len() < 8 + be_u32(d, 4) {
        is_short_read(r)
    } else {
        r matches Ok(v) && v@ == d.subrange(8, 8 + be_u32(d, 4))
    }
}

/// Parses a decompressed image file: a big-endian header (magic number, image count,
/// rows, columns) followed by the pixels, one byte each.
pub fn parse_images(d: &Vec<u8>) -> (r: Result<Matrix<u8>, MnistError>)
    ensures
        images_outcome(d@, r),
{
    if d.len() < 4 {
        return Err(short_read());
    }
    if read_be_u32(d, 0) != IMAGES_MAGIC {
        return Err(MnistError::InvalidMagicNumber);
    }
    if d.len() < 16 {
        return Err(short_read());
    }
    let count = read_be_u32(d, 4);
    let rows = read_be_u32(d, 8);
    let cols = read_be_u32(d, 12);
    if rows != IMAGE_SIDE || cols != IMAGE_SIDE {
        return Err(MnistError::InvalidDimensions);
    }
    let need: u64 = 16 + (count as u64) * (IMAGE_SIZE as u64);
    if (d.len() as u64) < need {
        return Err(short_read());
    }
    let m = Matrix::from_flat(d, 16, count as usize, IMAGE_SIZE);
    Ok(m)
}

/// Parses a decompressed label file: a big-endian header (magic number, label count)
/// followed by the labels, one byte each.
pub fn parse_labels(d: &Vec<u8>) -> (r: Result<Vec<u8>, MnistError>)
    ensures
        labels_outcome(d@, r),
{
    if d.len() < 4 {
        return Err(short_read());
    }
    if read_be_u32(d, 0) != LABELS_MAGIC {
        return Err(MnistError::InvalidMagicNumber);
    }
    if d.len() < 8 {
        return Err(short_read());
    }
    let count = read_be_u32(d, 4);
    if ((d.len() - 8) as u64) < count as u64 {
        return Err(short_read());
    }
    let mut labels: Vec<u8> = Vec::new();
    let mut k: usize = 0;
    while k < count as usize
        invariant
            d.len() == d@.len(),
            8 + count <= d@.len(),
            k <= count,
            labels@ == d@.subrange(8, 8 + k),
        decreases count - k,
    {
        labels.push(d[8 + k]);
        k = k + 1;
        assert(labels@ =~= d@.subrange(8, 8 + k));
    }
    Ok(labels)
}

#[verifier::external_type_specification]
#[verifier::external_body]
pub struct ExIoError(std::io::Error);

/// What decompressing the gzip stream `gz` gives: the bytes, or `None` where the
/// stream is malformed.
pub uninterp spec fn gunzipped(gz: Seq<u8>) -> Option<Seq<u8>>;

/// Relies on flate2's `read::GzDecoder`, read to its end: it decompresses the gzip
/// stream `gz`, and the outcome depends on those bytes alone.
#[verifier::external_body]
fn gunzip(gz: &[u8]) -> (r: Result<Vec<u8>, std::io::Error>)
    ensures
        match r {
            Ok(v) => gunzipped(gz@) == Some(v@),
            Err(_) => gunzipped(gz@) is None,
        },
{
    let mut out: Vec<u8> = Vec::new();
    std::io::Read::read_to_end(&mut flate2::read::GzDecoder::new(gz), &mut out)?;
    Ok(out)
}

/// Decompresses a gzip stream, reporting a failure as an I/O error.
pub fn decompress(gz: &[u8]) -> (r: Result<Vec<u8>, MnistError>)
    ensures
        match gunzipped(gz@) {
            Some(d) => r matches Ok(v) && v@ == d,
            None => r matches Err(MnistError::IoError(_)),
        },
{
    match gunzip(gz) {
        Ok(v) => Ok(v),
        Err(e) => Err(MnistError::IoError(e.to_string())),
    }
}

/// Loads the images of a gzip-compressed image file.
pub fn load_images(gz: &[u8]) -> (r: Result<Matrix<u8>, MnistError>)
    ensures
        match gunzipped(gz@) {
            Some(d) => images_outcome(d, r),
            None => r matches Err(MnistError::IoError(_)),
        },
{
    let d = decompress(gz)?;
    parse_images(&d)
}

/// Loads the labels of a gzip-compressed label file.
pub fn load_labels(gz: &[u8]) -> (r: Result<Vec<u8>, MnistError>)
    ensures
        match gunzipped(gz@) {
            Some(d) => labels_outcome(d, r),
            None => r matches Err(MnistError::IoError(_)),
        },
{
    let d = decompress(gz)?;
    parse_labels(&d)
}

/// The handwritten-digit dataset, as raw pixels (0 to 255, one row per image) and
/// labels (0 to 9).
#[derive(Debug, Clone)]
pub struct MnistDataset {
    pub train_images: Matrix<u8>,
    pub train_labels: Vec<u8>,
    pub test_images: Matrix<u8>,
    pub test_labels: Vec<u8>,
}

impl MnistDataset {
    pub open spec fn wf(&self) -> bool {
        &&& self.train_images.wf()
        &&& self.test_images.wf()
    }

    /// Loads the dataset from the four gzip-compressed files, in the order in which
    /// they are read: training images, training labels, test images, test labels.
    pub fn from_gz(
        train_images_gz: &[u8],
        train_labels_gz: &[u8],
        test_images_gz: &[u8],
        test_labels_gz: &[u8],
    ) -> (r: Result<MnistDataset, MnistError>)
        ensures
            r matches Ok(ds) ==> {
                &&& ds.wf()
                &&& gunzipped(train_images_gz@) matches Some(d) && images_outcome(
                    d,
                    Ok(ds.train_images),
                )
                &&& gunzipped(train_labels_gz@) matches Some(d) && labels_outcome(
                    d,
                    Ok(ds.train_labels),
                )
                &&& gunzipped(test_images_gz@) matches Some(d) && images_outcome(
                    d,
                    Ok(ds.test_images),
                )
                &&& gunzipped(test_labels_gz@) matches Some(d) && labels_outcome(
                    d,
                    Ok(ds.test_labels),
                )
            },
            r is Ok <==> {
                &&& gunzipped(train_images_gz@) matches Some(d) && images_valid(d)
                &&& gunzipped(train_labels_gz@) matches Some(d) && labels_valid(d)
                &&& gunzipped(test_images_gz@) matches Some(d) && images_valid(d)
                &&& gunzipped(test_labels_gz@) matches Some(d) && labels_valid(d)
            },
    {
        let train_images = load_images(train_images_gz)?;
        let train_labels = load_labels(train_labels_gz)?;
        let test_images = load_images(test_images_gz)?;
        let test_labels = load_labels(test_labels_gz)?;
        Ok(MnistDataset { train_images, train_labels, test_images, test_labels })
    }

    /// Number of training images.
    pub fn train_size(&self) -> (r: usize)
        ensures
            r == self.train_images.rows,
    {
        self.train_images.rows
    }

    /// Number of test images.
    pub fn test_size(&self) -> (r: usize)
        ensures
            r == self.test_images.rows,
    {
        self.test_images.rows
    }

    /// Number of pixels of an image (28 x 28 = 784).
    pub fn image_size(&self) -> (r: usize)
        ensures
            r == self.train_images.cols,
    {
        self.train_images.cols
    }

    /// The training images and labels at `indices`, in the order of `indices`.
    pub fn get_train_batch(&self, indices: &Vec<usize>) -> (r: (Matrix<u8>, Vec<u8>))
        requires
            self.wf(),
            forall|k: int|
                0 <= k < indices@.len() ==> #[trigger] indices@[k] < self.train_images.rows
                    && indices@[k] < self.train_labels@.len(),
        ensures
            r.0.wf(),
            r.0.rows == indices@.len(),
            r.0.cols == self.train_images.cols,
            r.1@.len() == indices@.len(),
            forall|k: int|
                0 <= k < indices@.len() ==> #[trigger] r.0@[k] == self.train_images@[indices@[k] as int],
            forall|k: int|
                0 <= k < indices@.len() ==> #[trigger] r.1@[k] == self.train_labels@[indices@[k] as int],
    {
        (self.train_images.select_rows(indices), select(&self.train_labels, indices))
    }

    /// The test images and labels at `indices`, in the order of `indices`.
    pub fn get_test_batch(&self, indices: &Vec<usize>) -> (r: (Matrix<u8>, Vec<u8>))
        requires
            self.wf(),
            forall|k: int|
                0 <= k < indices@.len() ==> #[trigger] indices@[k] < self.test_images.rows
                    && indices@[k] < self.test_labels@.len(),
        ensures
            r.0.wf(),
            r.0.rows == indices@.len(),
            r.0.cols == self.test_images.cols,
            r.1@.len() == indices@.len(),
            forall|k: int|
                0 <= k < indices@.len() ==> #[trigger] r.0@[k] == self.test_images@[indices@[k] as int],
            forall|k: int|
                0 <= k < indices@.len() ==> #[trigger] r.1@[k] == self.test_labels@[indices@[k] as int],
    {
        (self.test_images.select_rows(indices), select(&self.test_labels, indices))
    }

    /// The first `min(1000, train_size)` training images and their labels.
    pub fn small_subset(&self) -> (r: (Matrix<u8>, Vec<u8>))
        requires
            self.wf(),
            self.train_labels@.len() >= self.train_images.rows,
        ensures
            r.0.wf(),
            r.0.rows == (if self.train_images.rows < 1000 {
                self.train_images.rows as int
            } else {
                1000
            }),
            r.0.cols == self.train_images.cols,
            r.1@.len() == r.0.rows,
            forall|k: int| 0 <= k < r.0.rows ==> #[trigger] r.0@[k] == self.train_images@[k],
            forall|k: int| 0 <= k < r.0.rows ==> #[trigger] r.1@[k] == self.train_labels@[k],
    {
        let n: usize = if self.train_images.rows < 1000 {
            self.train_images.rows
        } else {
            1000
        };
        let mut indices: Vec<usize> = Vec::new();
        let mut k: usize = 0;
        while k < n
            invariant
                k <= n,
                indices@.len() == k,
                forall|l: int| 0 <= l < k ==> #[trigger] indices@[l] == l,
            decreases n - k,
        {
            indices.push(k);
            k = k + 1;
        }
        let r = self.get_train_batch(&indices);
        assert forall|k: int| 0 <= k < r.0.rows implies #[trigger] r.0@[k] == self.train_images@[k]
            && r.1@[k] == self.train_labels@[k] by {
            assert(indices@[k] == k);
        }
        r
    }

    /// One row per label, holding `one` in the column of the label and `zero` elsewhere.
    pub fn labels_to_one_hot<T: Copy>(&self, labels: &Vec<u8>, zero: T, one: T) -> (r: Matrix<T>)
        requires
            forall|k: int| 0 <= k < labels@.len() ==> #[trigger] labels@[k] < NUM_CLASSES,
        ensures
            r.wf(),
            r.rows == labels@.len(),
            r.cols == NUM_CLASSES,
            forall|i: int, j: int|
                0 <= i < r.rows && 0 <= j < NUM_CLASSES ==> #[trigger] r.entry(i, j) == (if j
                    == labels@[i] {
                    one
                } else {
                    zero
                }),
    {
        let mut data: Vec<Vec<T>> = Vec::new();
        let mut i: usize = 0;
        while i < labels.len()
            invariant
                forall|k: int| 0 <= k < labels@.len() ==> #[trigger] labels@[k] < NUM_CLASSES,
                i <= labels@.len(),
                data@.len() == i,
                forall|k: int| 0 <= k < i ==> (#[trigger] data@[k])@.len() == NUM_CLASSES,
                forall|k: int, j: int|
                    0 <= k < i && 0 <= j < NUM_CLASSES ==> #[trigger] data@[k]@[j] == (if j
                        == labels@[k] {
                        one
                    } else {
                        zero
                    }),
            decreases labels@.len() - i,
        {
            let label = labels[i] as usize;
            let mut row: Vec<T> = Vec::new();
            let mut j: usize = 0;
            while j < NUM_CLASSES
                invariant
                    j <= NUM_CLASSES,
                    row@.len() == j,
                    forall|l: int| 0 <= l < j ==> #[trigger] row@[l] == (if l == label {
                        one
                    } else {
                        zero
                    }),
                decreases NUM_CLASSES - j,
            {
                if j == label {
                    row.push(one);
                } else {
                    row.push(zero);
                }
                j = j + 1;
            }
            data.push(row);
            i = i + 1;
        }
        Matrix { data, rows: labels.len(), cols: NUM_CLASSES }
    }
}

} // verus!
