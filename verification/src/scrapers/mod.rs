pub mod motorradhandel;
