//! The configuration the engine consumes: where the archive lives, the
//! filename extension of its data files, and decoder tuning.
use vstd::prelude::*;

verus! {

/// Configuration parameters, with the same defaults the service ships
/// with. The batch size is tuning only and has no bearing on results.
pub struct Config {
    /// Address the serving layer listens on.
    pub server_address: String,
    /// Base path for data files.
    pub parquet_data_path: String,
    /// Base path containing the market data files.
    pub market_data_path: String,
    /// Records per batch when a file is decoded.
    pub parquet_reader_record_batch_size: usize,
    /// Filename extension of the daily data files, without its dot.
    pub parquet_file_extension: String,
}

impl Default for Config {
    fn default() -> (c: Self)
        ensures
            c.server_address@ == "0.0.0.0:8080"@,
            c.parquet_data_path@ == "data"@,
            c.market_data_path@ == "data/market_data"@,
            c.parquet_reader_record_batch_size == 1024,
            c.parquet_file_extension@ == "parquet"@,
    {
        Config {
            server_address: "0.0.0.0:8080".to_owned(),
            parquet_data_path: "data".to_owned(),
            market_data_path: "data/market_data".to_owned(),
            parquet_reader_record_batch_size: 1024,
            parquet_file_extension: "parquet".to_owned(),
        }
    }
}

} // verus!
