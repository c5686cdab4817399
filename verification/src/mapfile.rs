//! The map definition that a renderer is built from: one fixed text with
//! the moment in time of the data it shows.

use vstd::prelude::*;
use vstd::string::StringExecFns;
use crate::text::{signed_decimal, signed_decimal_text};

verus! {

/// The map definition up to the timestamp.
pub const MAPFILE_HEAD: &'static str = "MAP
          NAME 'default'
          STATUS ON
          PROJECTION
            'init=epsg:3857'
          END
          EXTENT -11711375.725741563 4941042.382410363 -11711222.851684993 4941195.256466932
          UNITS METERS
          DEBUG 5
          CONFIG 'CPL_DEBUG' 'ON'
          CONFIG 'CPL_TIMESTAMP' 'ON'
          CONFIG 'CPL_LOG' '/dev/stderr'
          CONFIG 'CPL_LOG_ERRORS' 'ON'
          CONFIG 'MS_ERRORFILE' '/dev/stderr'
          CONFIG 'GDAL_DISABLE_READDIR_ON_OPEN' 'TRUE'
          CONFIG 'GDAL_FORCE_CACHING' 'NO'
          CONFIG 'GDAL_CACHEMAX' '10%'
          CONFIG 'VSI_CACHE' 'FALSE'
          CONFIG 'VSI_CACHE_SIZE' '0'  # bytes
          CONFIG 'CPL_VSIL_CURL_CACHE_SIZE' '0'  # bytes
          SIZE 256 256
          IMAGECOLOR 255 255 255
          IMAGETYPE 'png'
          SHAPEPATH '/tmp'
          LAYER
            NAME 'default'
            TYPE RASTER
            STATUS ON
            DEBUG 5
            PROJECTION
              AUTO
            END
            DATA '/home/mperry/work/tiledb/naip/naip-combined'
            # DATA 's3://perrygeo-tiledb/arrays/naip-2017'
            CONNECTIONOPTIONS
              'TILEDB_CONFIG'	'/home/mperry/work/tiledb/tiledb.aws.config'
              'TILEDB_TIMESTAMP' '";

/// The map definition after the timestamp.
pub const MAPFILE_TAIL: &'static str = "'
            END
            PROCESSING 'CLOSE_CONNECTION=DEFER'
            PROCESSING 'BANDS=1,2,3,4'
            PROCESSING 'SCALE_4=0,1'  # Hack to ignore band 4`
          END
        END";

/// The map definition for the data as it stood at `timestamp`: the fixed
/// text with the timestamp, as a decimal numeral, as the value of the
/// connection option `TILEDB_TIMESTAMP`.
pub fn make_mapfile_str(timestamp: i64) -> (mapfile: String)
    ensures
        mapfile@ == MAPFILE_HEAD@ + signed_decimal(timestamp as int) + MAPFILE_TAIL@,
{
    let stamp = signed_decimal_text(timestamp);
    let mapfile = String::from_str(MAPFILE_HEAD);
    let mapfile = mapfile.concat(stamp.as_str());
    mapfile.concat(MAPFILE_TAIL)
}

} // verus!
