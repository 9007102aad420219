pub mod file_io;
