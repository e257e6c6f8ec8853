pub mod gamma;
pub mod mesh;
pub mod perlin;
pub mod rtw_image;
pub mod rtweekend;
pub mod texture;
