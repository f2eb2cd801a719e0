# rustycogs

Byte-range tile references and tile reads for tiled TIFF and Cloud-Optimized
GeoTIFF files held locally or in S3, Google Cloud Storage, Azure Blob Storage
or behind HTTP(S), for use from R.

- `src/` is the library, written in Verus with its contracts proved:
  - `location` decides which store holds a location and the object's path in it;
  - `dtype` gives NumPy-style type strings for samples and decoded tiles;
  - `ifd` is what is read of one image file directory;
  - `refs` builds the per-tile reference table;
  - `ifd_info` builds the per-directory summary;
  - `tiles` validates tile requests, groups multi-file requests by file and
    directory, and puts decoded tiles back in request order;
  - `text` holds the string helpers.
- `app/` is the R binding (extendr): it builds the store clients, reads the
  TIFF metadata and tiles with async-tiff on a tokio runtime, and converts
  results to R values.
- `tests/` exercises the library on concrete inputs.
