pub mod gzip_compressor;
